//! A node that ingests one URI and produces its audio and video.
use crate::nodes::{Consumers, Timing};
use crate::protocol::{NodeInfo, SourceInfo, State, Timestamp};
use crate::schedule::settle;
use crate::text::{push_text, texts};
use vstd::prelude::*;

verus! {

#[derive(Clone, Copy, Debug, PartialEq, Eq, Structural)]
pub enum SourcePipelineStage {
    Idle,
    Prerolling,
    Playing,
}

/// The pipeline stage that a state calls for.
pub open spec fn source_stage(s: State) -> SourcePipelineStage {
    match s {
        State::Starting => SourcePipelineStage::Prerolling,
        State::Started => SourcePipelineStage::Playing,
        _ => SourcePipelineStage::Idle,
    }
}

pub fn stage_for_state(s: State) -> (r: SourcePipelineStage)
    ensures
        r == source_stage(s),
{
    match s {
        State::Starting => SourcePipelineStage::Prerolling,
        State::Started => SourcePipelineStage::Playing,
        _ => SourcePipelineStage::Idle,
    }
}

/// The elements a source pipeline is made of, in order.
pub open spec fn source_elements() -> Seq<Seq<char>> {
    seq!["fallbacksrc"@, "deinterlace"@, "audioconvert"@, "level"@, "appsink"@]
}

/// What the live pipeline of a source is built from: a fallback-capable
/// source element that is unblocked by hand and falls back at once.
#[derive(Debug, Clone)]
pub struct SourcePipelineProfile {
    pub uri: String,
    pub manual_unblock: bool,
    pub immediate_fallback: bool,
    pub elements: Vec<String>,
    pub stage: SourcePipelineStage,
}

impl SourcePipelineProfile {
    pub fn new(uri: String) -> (r: Self)
        ensures
            r.uri == uri,
            r.manual_unblock,
            r.immediate_fallback,
            texts(r.elements@) == source_elements(),
            r.stage == SourcePipelineStage::Idle,
    {
        let mut elements: Vec<String> = Vec::new();
        push_text(&mut elements, "fallbacksrc");
        push_text(&mut elements, "deinterlace");
        push_text(&mut elements, "audioconvert");
        push_text(&mut elements, "level");
        push_text(&mut elements, "appsink");
        SourcePipelineProfile {
            uri,
            manual_unblock: true,
            immediate_fallback: true,
            elements,
            stage: SourcePipelineStage::Idle,
        }
    }
}

/// The info lists the consumers and carries the schedule and state.
pub open spec fn source_info_matches(i: SourceInfo, c: Consumers, t: Timing) -> bool {
    &&& i.video_consumer_slot_ids is Some
    &&& i.video_consumer_slot_ids->0@ == c.video@
    &&& i.audio_consumer_slot_ids is Some
    &&& i.audio_consumer_slot_ids->0@ == c.audio@
    &&& i.cue_time == t.cue_time
    &&& i.end_time == t.end_time
    &&& i.state == t.state
}

#[derive(Debug, Clone)]
pub struct SourceNode {
    pub id: String,
    pub uri: String,
    pub audio_enabled: bool,
    pub video_enabled: bool,
    pub consumers: Consumers,
    pub timing: Timing,
    pub pipeline: SourcePipelineProfile,
}

impl SourceNode {
    pub open spec fn wf(&self) -> bool {
        self.consumers.wf() && self.pipeline.stage == source_stage(self.timing.state)
    }

    pub fn new(id: String, uri: String, audio_enabled: bool, video_enabled: bool) -> (r: Self)
        ensures
            r.wf(),
            r.id == id,
            r.uri == uri,
            r.audio_enabled == audio_enabled,
            r.video_enabled == video_enabled,
            r.consumers.audio@.len() == 0,
            r.consumers.video@.len() == 0,
            r.timing == Timing::new_spec(),
    {
        let pipeline = SourcePipelineProfile::new(uri.clone());
        SourceNode {
            id,
            uri,
            audio_enabled,
            video_enabled,
            consumers: Consumers::new(),
            timing: Timing::new(),
            pipeline,
        }
    }

    /// Takes the transitions due at `now` and brings the stage in line.
    pub fn refresh(&mut self, now: Timestamp)
        requires
            old(self).wf(),
        ensures
            final(self).wf(),
            final(self).id == old(self).id,
            final(self).audio_enabled == old(self).audio_enabled,
            final(self).video_enabled == old(self).video_enabled,
            final(self).consumers == old(self).consumers,
            final(self).timing.cue_time == old(self).timing.cue_time,
            final(self).timing.end_time == old(self).timing.end_time,
            final(self).timing.last_error == old(self).timing.last_error,
            final(self).timing.state == old(self).timing.advanced(now as int, true),
            final(self).uri == old(self).uri,
            final(self).timing.scheduled == old(self).timing.scheduled,
    {
        self.timing.refresh(now, true);
        self.pipeline.stage = stage_for_state(self.timing.state);
    }

    pub fn schedule(&mut self, cue_time: Option<Timestamp>, end_time: Option<Timestamp>, now: Timestamp)
        requires
            old(self).wf(),
        ensures
            final(self).wf(),
            final(self).id == old(self).id,
            final(self).audio_enabled == old(self).audio_enabled,
            final(self).video_enabled == old(self).video_enabled,
            final(self).consumers == old(self).consumers,
            final(self).timing.cue_time == cue_time,
            final(self).timing.end_time == end_time,
            final(self).timing.last_error is None,
            final(self).timing.state == settle(State::Initial, cue_time, end_time, now as int, true),
            final(self).timing.scheduled,
            final(self).uri == old(self).uri,
    {
        self.timing.reschedule(cue_time, end_time, now, true);
        self.pipeline.stage = stage_for_state(self.timing.state);
    }

    pub fn stop(&mut self)
        requires
            old(self).wf(),
        ensures
            final(self).wf(),
            final(self).id == old(self).id,
            final(self).audio_enabled == old(self).audio_enabled,
            final(self).video_enabled == old(self).video_enabled,
            final(self).consumers == old(self).consumers,
            final(self).timing.state == State::Stopped,
            final(self).pipeline.stage == SourcePipelineStage::Idle,
    {
        self.timing.stop();
        self.pipeline.stage = SourcePipelineStage::Idle;
    }

    pub fn as_info(&self) -> (r: NodeInfo)
        ensures
            r is Source,
            r->Source_0.uri@ == self.uri@,
            source_info_matches(r->Source_0, self.consumers, self.timing),
    {
        let (video, audio) = self.consumers.snapshot();
        NodeInfo::Source(SourceInfo {
            uri: self.uri.clone(),
            video_consumer_slot_ids: Some(video),
            audio_consumer_slot_ids: Some(audio),
            cue_time: self.timing.cue_time,
            end_time: self.timing.end_time,
            state: self.timing.state,
        })
    }
}

} // verus!
