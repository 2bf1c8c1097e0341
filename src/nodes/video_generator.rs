//! A synthetic video source for testing: a moving ball pattern.
use crate::nodes::source::source_info_matches;
use crate::nodes::{Consumers, Timing};
use crate::protocol::{NodeInfo, SourceInfo, State, Timestamp};
use crate::schedule::settle;
use crate::text::{join2, push_text, texts};
use vstd::prelude::*;

verus! {

#[derive(Clone, Copy, Debug, PartialEq, Eq, Structural)]
pub enum VideoGeneratorStage {
    Idle,
    Prerolling,
    Playing,
}

pub open spec fn generator_stage(s: State) -> VideoGeneratorStage {
    match s {
        State::Starting => VideoGeneratorStage::Prerolling,
        State::Started => VideoGeneratorStage::Playing,
        _ => VideoGeneratorStage::Idle,
    }
}

fn generator_stage_for(s: State) -> (r: VideoGeneratorStage)
    ensures
        r == generator_stage(s),
{
    match s {
        State::Starting => VideoGeneratorStage::Prerolling,
        State::Started => VideoGeneratorStage::Playing,
        _ => VideoGeneratorStage::Idle,
    }
}

/// A live test source with the ball pattern, flipped, then deinterlaced.
#[derive(Debug, Clone)]
pub struct VideoGeneratorPipelineProfile {
    pub elements: Vec<String>,
    pub pattern: String,
    pub is_live: bool,
    pub flip: bool,
    pub stage: VideoGeneratorStage,
}

impl VideoGeneratorPipelineProfile {
    pub fn new() -> (r: Self)
        ensures
            texts(r.elements@) == seq!["videotestsrc"@, "deinterlace"@, "appsink"@],
            r.pattern@ == "ball"@,
            r.is_live,
            r.flip,
            r.stage == VideoGeneratorStage::Idle,
    {
        let mut elements: Vec<String> = Vec::new();
        push_text(&mut elements, "videotestsrc");
        push_text(&mut elements, "deinterlace");
        push_text(&mut elements, "appsink");
        VideoGeneratorPipelineProfile {
            elements,
            pattern: String::from_str("ball"),
            is_live: true,
            flip: true,
            stage: VideoGeneratorStage::Idle,
        }
    }
}

/// The URI under which a generator is reported.
pub open spec fn generator_uri(id: Seq<char>) -> Seq<char> {
    "videogenerator://"@ + id
}

#[derive(Debug, Clone)]
pub struct VideoGeneratorNode {
    pub id: String,
    pub audio_enabled: bool,
    pub video_enabled: bool,
    pub consumers: Consumers,
    pub timing: Timing,
    pub pipeline: VideoGeneratorPipelineProfile,
}

impl VideoGeneratorNode {
    pub open spec fn wf(&self) -> bool {
        self.consumers.wf() && self.pipeline.stage == generator_stage(self.timing.state)
    }

    /// A generator produces video only.
    pub fn new(id: String) -> (r: Self)
        ensures
            r.wf(),
            r.id == id,
            !r.audio_enabled,
            r.video_enabled,
            r.consumers.audio@.len() == 0,
            r.consumers.video@.len() == 0,
            r.timing == Timing::new_spec(),
    {
        VideoGeneratorNode {
            id,
            audio_enabled: false,
            video_enabled: true,
            consumers: Consumers::new(),
            timing: Timing::new(),
            pipeline: VideoGeneratorPipelineProfile::new(),
        }
    }

    pub fn refresh(&mut self, now: Timestamp)
        requires
            old(self).wf(),
        ensures
            final(self).wf(),
            final(self).id == old(self).id,
            final(self).audio_enabled == old(self).audio_enabled,
            final(self).video_enabled == old(self).video_enabled,
            final(self).consumers == old(self).consumers,
            final(self).timing.cue_time == old(self).timing.cue_time,
            final(self).timing.end_time == old(self).timing.end_time,
            final(self).timing.last_error == old(self).timing.last_error,
            final(self).timing.state == old(self).timing.advanced(now as int, true),
            final(self).timing.scheduled == old(self).timing.scheduled,
    {
        self.timing.refresh(now, true);
        self.pipeline.stage = generator_stage_for(self.timing.state);
    }

    pub fn schedule(&mut self, cue_time: Option<Timestamp>, end_time: Option<Timestamp>, now: Timestamp)
        requires
            old(self).wf(),
        ensures
            final(self).wf(),
            final(self).id == old(self).id,
            final(self).audio_enabled == old(self).audio_enabled,
            final(self).video_enabled == old(self).video_enabled,
            final(self).consumers == old(self).consumers,
            final(self).timing.cue_time == cue_time,
            final(self).timing.end_time == end_time,
            final(self).timing.last_error is None,
            final(self).timing.state == settle(State::Initial, cue_time, end_time, now as int, true),
            final(self).timing.scheduled,
    {
        self.timing.reschedule(cue_time, end_time, now, true);
        self.pipeline.stage = generator_stage_for(self.timing.state);
    }

    pub fn stop(&mut self)
        requires
            old(self).wf(),
        ensures
            final(self).wf(),
            final(self).id == old(self).id,
            final(self).audio_enabled == old(self).audio_enabled,
            final(self).video_enabled == old(self).video_enabled,
            final(self).consumers == old(self).consumers,
            final(self).timing.state == State::Stopped,
    {
        self.timing.stop();
        self.pipeline.stage = VideoGeneratorStage::Idle;
    }

    /// Reported as a source, so that clients see one shape for every producer.
    pub fn as_compatible_source_info(&self) -> (r: NodeInfo)
        ensures
            r is Source,
            r->Source_0.uri@ == generator_uri(self.id@),
            source_info_matches(r->Source_0, self.consumers, self.timing),
    {
        let (video, audio) = self.consumers.snapshot();
        NodeInfo::Source(SourceInfo {
            uri: join2("videogenerator://", self.id.as_str()),
            video_consumer_slot_ids: Some(video),
            audio_consumer_slot_ids: Some(audio),
            cue_time: self.timing.cue_time,
            end_time: self.timing.end_time,
            state: self.timing.state,
        })
    }
}

} // verus!
