//! A node that combines any number of slot inputs into one audio and one
//! video output.
use crate::control::{evaluate_spec, without_id};
use crate::nodes::{Consumers, Timing};
use crate::protocol::{
    ControlPoint, MixerInfo, MixerSlotInfo, NodeInfo, Series, Setting, SlotEntry, SlotSeries, SlotSettings, State,
    Timestamp, Value, UNIT,
};
use crate::schedule::settle;
use crate::settings::{
    add_point, applied_value, apply_series, get_setting, keys_distinct, lookup, points_for, properties_distinct,
    put_setting, remove_point, series_sorted, with_point,
};
use crate::text::{join2, join3, join4, push_text_if, same_text, texts};
use vstd::prelude::*;

verus! {

/// Why `value` cannot be stored as the mixer setting `name`, if it cannot.
pub open spec fn setting_error(name: Seq<char>, value: Value) -> Option<Seq<char>> {
    if name == "width"@ || name == "height"@ || name == "sample-rate"@ || name == "fallback-timeout"@ {
        if value is Number {
            None
        } else {
            Some("Setting `"@ + name + "` expects a numeric value"@)
        }
    } else if name == "fallback-image"@ {
        if value is Text {
            None
        } else {
            Some("Setting `fallback-image` expects a string value"@)
        }
    } else {
        Some("No setting with name "@ + name + " on mixers"@)
    }
}

/// Checks a value for a mixer setting.
pub fn validate_setting_value(name: &String, value: &Value) -> (r: Result<(), String>)
    ensures
        match setting_error(name@, *value) {
            Some(m) => r is Err && r->Err_0@ == m,
            None => r is Ok,
        },
{
    if same_text(name, "width") || same_text(name, "height") || same_text(name, "sample-rate") || same_text(
        name,
        "fallback-timeout",
    ) {
        if value.is_number() {
            Ok(())
        } else {
            Err(join3("Setting `", name.as_str(), "` expects a numeric value"))
        }
    } else if same_text(name, "fallback-image") {
        if value.is_string() {
            Ok(())
        } else {
            Err(String::from_str("Setting `fallback-image` expects a string value"))
        }
    } else {
        Err(join3("No setting with name ", name.as_str(), " on mixers"))
    }
}

/// The first position from `i` on where `::` starts, or -1.
pub open spec fn separator_from(p: Seq<char>, i: int) -> int
    decreases p.len() - i,
{
    if i < 0 || i + 1 >= p.len() {
        -1
    } else if p[i] == ':' && p[i + 1] == ':' {
        i
    } else {
        separator_from(p, i + 1)
    }
}

/// How a slot property key reads: `Ok((is_video, property))` for
/// `video::property` or `audio::property`, else the error.
pub open spec fn slot_key(p: Seq<char>) -> Result<(bool, Seq<char>), Seq<char>> {
    let i = separator_from(p, 0);
    if i < 0 {
        Err("Slot property name must be in form media-type::property-name"@)
    } else if p.take(i) == "video"@ {
        Ok((true, p.skip(i + 2)))
    } else if p.take(i) == "audio"@ {
        Ok((false, p.skip(i + 2)))
    } else {
        Err("Slot property media type must be one of [audio, video]"@)
    }
}

fn first_separator(s: &str) -> (r: Option<usize>)
    ensures
        match r {
            Some(i) => i + 1 < s@.len() && separator_from(s@, 0) == i,
            None => separator_from(s@, 0) == -1,
        },
{
    let n = s.unicode_len();
    let mut i: usize = 0;
    while n - i > 1
        invariant
            i <= n,
            n == s@.len(),
            separator_from(s@, 0) == separator_from(s@, i as int),
        decreases n - i,
    {
        let a = s.get_char(i);
        let b = s.get_char(i + 1);
        if a == ':' && b == ':' {
            return Some(i);
        }
        i = i + 1;
    }
    None
}

/// Splits a slot property key at its first `::` into medium and property.
pub fn parse_slot_config_key(property: &String) -> (r: Result<(bool, String), String>)
    ensures
        match slot_key(property@) {
            Ok((v, name)) => r is Ok && r->Ok_0.0 == v && r->Ok_0.1@ == name,
            Err(m) => r is Err && r->Err_0@ == m,
        },
{
    let s = property.as_str();
    let n = s.unicode_len();
    let i = match first_separator(s) {
        Some(i) => i,
        None => {
            return Err(String::from_str("Slot property name must be in form media-type::property-name"));
        },
    };
    let media = s.substring_char(0, i);
    let name = s.substring_char(i + 2, n);
    assert(media@ =~= property@.take(i as int));
    assert(name@ =~= property@.skip(i as int + 2));
    let media_text = String::from_str(media);
    if same_text(&media_text, "video") {
        Ok((true, String::from_str(name)))
    } else if same_text(&media_text, "audio") {
        Ok((false, String::from_str(name)))
    } else {
        Err(String::from_str("Slot property media type must be one of [audio, video]"))
    }
}

/// Why `value` cannot be stored as a slot property, if it cannot. Unknown
/// properties pass, for forward compatibility.
pub open spec fn slot_value_error(is_video: bool, property: Seq<char>, value: Value) -> Option<Seq<char>> {
    if is_video {
        if property == "x"@ || property == "y"@ || property == "width"@ || property == "height"@ || property
            == "zorder"@ || property == "alpha"@ {
            if value is Number {
                None
            } else {
                Some("video::"@ + property + " expects a numeric value"@)
            }
        } else {
            None
        }
    } else {
        if property == "volume"@ && !(value is Number) {
            Some("audio::volume expects a numeric value"@)
        } else {
            None
        }
    }
}

/// Checks a value for a slot property.
pub fn validate_slot_value(is_video: bool, property: &String, value: &Value) -> (r: Result<(), String>)
    ensures
        match slot_value_error(is_video, property@, *value) {
            Some(m) => r is Err && r->Err_0@ == m,
            None => r is Ok,
        },
{
    if is_video {
        if same_text(property, "x") || same_text(property, "y") || same_text(property, "width") || same_text(
            property,
            "height",
        ) || same_text(property, "zorder") || same_text(property, "alpha") {
            if value.is_number() {
                Ok(())
            } else {
                Err(join3("video::", property.as_str(), " expects a numeric value"))
            }
        } else {
            Ok(())
        }
    } else {
        if same_text(property, "volume") && !value.is_number() {
            Err(String::from_str("audio::volume expects a numeric value"))
        } else {
            Ok(())
        }
    }
}

/// The whole part of a fixed-point number, rounded towards zero.
pub open spec fn whole(n: int) -> int {
    if n >= 0 {
        n / (UNIT as int)
    } else {
        -((-n) / (UNIT as int))
    }
}

fn whole_units(n: i64) -> (r: i64)
    ensures
        r as int == whole(n as int),
{
    if n >= 0 {
        n / UNIT
    } else {
        let m: i128 = -(n as i128);
        (-(m / (UNIT as i128))) as i64
    }
}

/// An integer setting, or `fallback` when it is missing or not a number.
pub open spec fn int_setting(v: Option<Value>, fallback: int) -> int {
    match v {
        Some(Value::Number(n)) => whole(n as int),
        _ => fallback,
    }
}

fn read_int_setting(settings: &Vec<Setting>, key: &str, fallback: i64) -> (r: i64)
    requires
        keys_distinct(settings@),
    ensures
        r as int == int_setting(lookup(settings@, key@), fallback as int),
{
    let k = String::from_str(key);
    match get_setting(settings, &k) {
        Some(Value::Number(n)) => whole_units(n),
        _ => fallback,
    }
}

#[derive(Clone, Copy, Debug, PartialEq, Eq, Structural)]
pub enum MixerPipelineStage {
    Idle,
    Starting,
    Playing,
}

pub open spec fn mixer_stage(s: State) -> MixerPipelineStage {
    match s {
        State::Starting => MixerPipelineStage::Starting,
        State::Started => MixerPipelineStage::Playing,
        _ => MixerPipelineStage::Idle,
    }
}

fn mixer_stage_for(s: State) -> (r: MixerPipelineStage)
    ensures
        r == mixer_stage(s),
{
    match s {
        State::Starting => MixerPipelineStage::Starting,
        State::Started => MixerPipelineStage::Playing,
        _ => MixerPipelineStage::Idle,
    }
}

/// What the live pipeline of a mixer is built from: output size and rate,
/// the fallback image and timeout, and one branch per enabled medium.
#[derive(Debug, Clone)]
pub struct MixerPipelineProfile {
    pub video_branch_elements: Vec<String>,
    pub audio_branch_elements: Vec<String>,
    pub width: i64,
    pub height: i64,
    pub sample_rate: i64,
    pub fallback_image: String,
    pub fallback_timeout_ms: i64,
    pub stage: MixerPipelineStage,
}

/// The fallback image named by the settings, or the empty text.
pub open spec fn image_setting(v: Option<Value>) -> Seq<char> {
    match v {
        Some(Value::Text(s)) => s@,
        _ => Seq::empty(),
    }
}

impl MixerPipelineProfile {
    pub fn from_settings(settings: &Vec<Setting>, audio_enabled: bool, video_enabled: bool, stage: MixerPipelineStage) -> (r: Self)
        requires
            keys_distinct(settings@),
        ensures
            r.width as int == int_setting(lookup(settings@, "width"@), 1920),
            r.height as int == int_setting(lookup(settings@, "height"@), 1080),
            r.sample_rate as int == int_setting(lookup(settings@, "sample-rate"@), 48000),
            r.fallback_timeout_ms as int == int_setting(lookup(settings@, "fallback-timeout"@), 500),
            r.fallback_image@ == image_setting(lookup(settings@, "fallback-image"@)),
            texts(r.video_branch_elements@) == if video_enabled {
                seq!["compositor"@, "capsfilter"@, "queue"@, "appsink"@]
            } else {
                Seq::empty()
            },
            texts(r.audio_branch_elements@) == if audio_enabled {
                seq!["audiomixer"@, "audioconvert"@, "audioresample"@, "appsink"@]
            } else {
                Seq::empty()
            },
            r.stage == stage,
    {
        let width = read_int_setting(settings, "width", 1920);
        let height = read_int_setting(settings, "height", 1080);
        let sample_rate = read_int_setting(settings, "sample-rate", 48000);
        let fallback_timeout_ms = read_int_setting(settings, "fallback-timeout", 500);
        let image_key = String::from_str("fallback-image");
        let fallback_image = match get_setting(settings, &image_key) {
            Some(Value::Text(s)) => s,
            _ => String::new(),
        };
        let mut video_branch_elements: Vec<String> = Vec::new();
        push_text_if(&mut video_branch_elements, video_enabled, "compositor");
        push_text_if(&mut video_branch_elements, video_enabled, "capsfilter");
        push_text_if(&mut video_branch_elements, video_enabled, "queue");
        push_text_if(&mut video_branch_elements, video_enabled, "appsink");
        let mut audio_branch_elements: Vec<String> = Vec::new();
        push_text_if(&mut audio_branch_elements, audio_enabled, "audiomixer");
        push_text_if(&mut audio_branch_elements, audio_enabled, "audioconvert");
        push_text_if(&mut audio_branch_elements, audio_enabled, "audioresample");
        push_text_if(&mut audio_branch_elements, audio_enabled, "appsink");
        proof {
            assert(texts(video_branch_elements@) =~= if video_enabled {
                seq!["compositor"@, "capsfilter"@, "queue"@, "appsink"@]
            } else {
                Seq::empty()
            });
            assert(texts(audio_branch_elements@) =~= if audio_enabled {
                seq!["audiomixer"@, "audioconvert"@, "audioresample"@, "appsink"@]
            } else {
                Seq::empty()
            });
        }
        MixerPipelineProfile {
            video_branch_elements,
            audio_branch_elements,
            width,
            height,
            sample_rate,
            fallback_image,
            fallback_timeout_ms,
            stage,
        }
    }
}

/// The first entry of a mixer configuration that cannot be stored, if any.
pub open spec fn config_error(cfg: Seq<Setting>) -> Option<Seq<char>>
    decreases cfg.len(),
{
    if cfg.len() == 0 {
        None
    } else {
        match config_error(cfg.drop_last()) {
            Some(m) => Some(m),
            None => setting_error(cfg.last().key@, cfg.last().value),
        }
    }
}

/// A mixer's settings before any configuration: 1920x1080, 48 kHz, no
/// fallback image, a fallback timeout of 500 ms.
pub open spec fn default_setting_holds(k: Seq<char>, v: Option<Value>) -> bool {
    if k == "width"@ {
        v == Some(Value::Number((1920 * UNIT) as i64))
    } else if k == "height"@ {
        v == Some(Value::Number((1080 * UNIT) as i64))
    } else if k == "sample-rate"@ {
        v == Some(Value::Number((48000 * UNIT) as i64))
    } else if k == "fallback-timeout"@ {
        v == Some(Value::Number((500 * UNIT) as i64))
    } else if k == "fallback-image"@ {
        v matches Some(Value::Text(s)) && s@.len() == 0
    } else {
        v is None
    }
}

fn default_settings() -> (r: Vec<Setting>)
    ensures
        keys_distinct(r@),
        forall|k: Seq<char>| default_setting_holds(k, #[trigger] lookup(r@, k)),
{
    let mut s: Vec<Setting> = Vec::new();
    let ghost s0 = s@;
    put_setting(&mut s, &String::from_str("width"), Value::Number(1920 * UNIT));
    let ghost s1 = s@;
    put_setting(&mut s, &String::from_str("height"), Value::Number(1080 * UNIT));
    let ghost s2 = s@;
    put_setting(&mut s, &String::from_str("sample-rate"), Value::Number(48000 * UNIT));
    let ghost s3 = s@;
    let img = Value::Text(String::new());
    let ghost gimg = img;
    put_setting(&mut s, &String::from_str("fallback-image"), img);
    let ghost s4 = s@;
    put_setting(&mut s, &String::from_str("fallback-timeout"), Value::Number(500 * UNIT));
    proof {
        reveal_strlit("width");
        reveal_strlit("height");
        reveal_strlit("sample-rate");
        reveal_strlit("fallback-image");
        reveal_strlit("fallback-timeout");
        assert("width"@.len() == 5 && "height"@.len() == 6 && "sample-rate"@.len() == 11);
        assert("fallback-image"@.len() == 14 && "fallback-timeout"@.len() == 16);
        assert forall|k: Seq<char>| default_setting_holds(k, #[trigger] lookup(s@, k)) by {
            assert(lookup(s0, k) is None);
            assert(lookup(s1, k) == if k == "width"@ { Some(Value::Number((1920 * UNIT) as i64)) } else { None::<Value> });
            assert(lookup(s2, k) == if k == "height"@ { Some(Value::Number((1080 * UNIT) as i64)) } else { lookup(s1, k) });
            assert(lookup(s3, k) == if k == "sample-rate"@ { Some(Value::Number((48000 * UNIT) as i64)) } else { lookup(s2, k) });
            assert(lookup(s4, k) == if k == "fallback-image"@ { Some(gimg) } else { lookup(s3, k) });
            assert(gimg matches Value::Text(t) && t@.len() == 0);
            assert(lookup(s@, k) == if k == "fallback-timeout"@ { Some(Value::Number((500 * UNIT) as i64)) } else { lookup(s4, k) });
        }
    }
    s
}

/// Each setting is the configured one, or else the default.
pub open spec fn configured_setting_holds(config: Option<Vec<Setting>>, settings: Seq<Setting>, k: Seq<char>) -> bool {
    let from_config = match config {
        Some(cfg) => lookup(cfg@, k),
        None => None,
    };
    match from_config {
        Some(v) => lookup(settings, k) == Some(v),
        None => default_setting_holds(k, lookup(settings, k)),
    }
}

/// Why a slot configuration entry is refused, if it is.
pub open spec fn slot_entry_error(e: Setting, link_id: Seq<char>, audio: bool, video: bool) -> Option<Seq<char>> {
    match slot_key(e.key@) {
        Err(m) => Some(m),
        Ok((is_video, prop)) => if is_video && !video {
            Some("Cannot set "@ + e.key@ + " on link "@ + link_id + "; video is not enabled for this link"@)
        } else if !is_video && !audio {
            Some("Cannot set "@ + e.key@ + " on link "@ + link_id + "; audio is not enabled for this link"@)
        } else {
            slot_value_error(is_video, prop, e.value)
        },
    }
}

/// The first entry of a slot configuration that is refused, if any.
pub open spec fn slot_config_error(cfg: Seq<Setting>, link_id: Seq<char>, audio: bool, video: bool) -> Option<Seq<char>>
    decreases cfg.len(),
{
    if cfg.len() == 0 {
        None
    } else {
        match slot_config_error(cfg.drop_last(), link_id, audio, video) {
            Some(m) => Some(m),
            None => slot_entry_error(cfg.last(), link_id, audio, video),
        }
    }
}

/// A slot's settings before its configuration: placed at the origin at the
/// mixer's size, opaque, at the bottom, at full volume.
pub open spec fn slot_default_holds(k: Seq<char>, v: Option<Value>, audio: bool, video: bool, w: int, h: int) -> bool {
    if video && (k == "video::x"@ || k == "video::y"@ || k == "video::zorder"@) {
        v == Some(Value::Number(0))
    } else if video && k == "video::width"@ {
        v == Some(Value::Number((w * UNIT) as i64))
    } else if video && k == "video::height"@ {
        v == Some(Value::Number((h * UNIT) as i64))
    } else if video && k == "video::alpha"@ {
        v == Some(Value::Number(UNIT))
    } else if audio && k == "audio::volume"@ {
        v == Some(Value::Number(UNIT))
    } else {
        v is None
    }
}

/// The volume a slot's settings call for, full volume when they name none.
pub open spec fn volume_of(v: Option<Value>) -> i64 {
    match v {
        Some(Value::Number(n)) => n,
        _ => UNIT,
    }
}

/// The volume once the `audio::volume` series, if any, is evaluated.
pub open spec fn applied_volume(cps: Seq<Series>, volume: i64, now: int) -> i64 {
    match points_for(cps, "audio::volume"@) {
        Some(pts) => match evaluate_spec(pts, now) {
            Some(Value::Number(n)) => n,
            _ => volume,
        },
        None => volume,
    }
}

/// One input of a mixer: the link it comes from, its volume, its pad
/// settings and their control points.
#[derive(Debug, Clone)]
pub struct MixerSlot {
    pub slot_id: String,
    pub volume: i64,
    pub settings: Vec<Setting>,
    pub control_points: Vec<Series>,
}

impl MixerSlot {
    pub open spec fn wf(&self) -> bool {
        keys_distinct(self.settings@) && properties_distinct(self.control_points@) && series_sorted(self.control_points@)
    }
}

pub open spec fn slot_ids(slots: Seq<MixerSlot>) -> Seq<Seq<char>> {
    slots.map_values(|s: MixerSlot| s.slot_id@)
}

/// Settings and volume once the series `cps` are evaluated at `now` over
/// `settings` and `volume`.
pub open spec fn applied_from(settings: Seq<Setting>, volume: i64, cps: Seq<Series>, after: MixerSlot, now: int) -> bool {
    &&& after.volume == applied_volume(cps, volume, now)
    &&& forall|k: Seq<char>| #[trigger] lookup(after.settings@, k) == applied_value(settings, cps, now, k)
}

/// A slot after its control points are evaluated at `now`.
pub open spec fn slot_applied(before: MixerSlot, after: MixerSlot, now: int) -> bool {
    &&& after.slot_id == before.slot_id
    &&& after.control_points == before.control_points
    &&& applied_from(before.settings@, before.volume, before.control_points@, after, now)
}

fn find_slot(slots: &Vec<MixerSlot>, id: &String) -> (r: Option<usize>)
    ensures
        r matches Some(i) ==> i < slots.len() && slots@[i as int].slot_id@ == id@,
        r is None ==> !slot_ids(slots@).contains(id@),
{
    let mut i: usize = 0;
    while i < slots.len()
        invariant
            i <= slots.len(),
            forall|j: int| 0 <= j < i ==> slots@[j].slot_id@ != id@,
        decreases slots.len() - i,
    {
        if slots[i].slot_id == *id {
            return Some(i);
        }
        i = i + 1;
    }
    proof {
        if slot_ids(slots@).contains(id@) {
            let k = choose|k: int| 0 <= k < slot_ids(slots@).len() && slot_ids(slots@)[k] == id@;
            assert(slots@[k].slot_id@ == id@);
        }
    }
    None
}

fn apply_slot(slot: &mut MixerSlot, now: Timestamp)
    requires
        old(slot).wf(),
    ensures
        final(slot).wf(),
        slot_applied(*old(slot), *final(slot), now as int),
{
    apply_series(&mut slot.settings, &slot.control_points, now);
    let key = String::from_str("audio::volume");
    match crate::settings::find_series(&slot.control_points, &key) {
        Some(i) => {
            proof {
                crate::settings::lemma_points_for_found(slot.control_points@, i as int);
            }
            match crate::control::evaluate_control_points(&slot.control_points[i].points, now) {
                Some(Value::Number(n)) => {
                    slot.volume = n;
                },
                _ => {},
            }
        },
        None => {
            proof {
                crate::settings::lemma_points_for_missing(slot.control_points@, "audio::volume"@);
            }
        },
    }
}

#[derive(Debug, Clone)]
pub struct MixerNode {
    pub id: String,
    pub audio_enabled: bool,
    pub video_enabled: bool,
    pub slots: Vec<MixerSlot>,
    pub consumers: Consumers,
    pub timing: Timing,
    pub settings: Vec<Setting>,
    pub control_points: Vec<Series>,
    pub pipeline: MixerPipelineProfile,
}

impl MixerNode {
    pub open spec fn wf(&self) -> bool {
        &&& self.consumers.wf()
        &&& keys_distinct(self.settings@)
        &&& properties_distinct(self.control_points@)
        &&& series_sorted(self.control_points@)
        &&& crate::text::distinct(slot_ids(self.slots@))
        &&& forall|i: int| 0 <= i < self.slots.len() ==> #[trigger] self.slots@[i].wf()
        &&& self.pipeline.stage == mixer_stage(self.timing.state)
    }

    /// A mixer with the default settings overridden by `config`; fails on the
    /// first entry that is not a known setting of the right type.
    pub fn new(id: String, config: Option<Vec<Setting>>, audio_enabled: bool, video_enabled: bool) -> (r: Result<Self, String>)
        ensures
            match config {
                Some(cfg) => match config_error(cfg@) {
                    Some(m) => r is Err && r->Err_0@ == m,
                    None => r is Ok,
                },
                None => r is Ok,
            },
            r matches Ok(n) ==> {
                &&& n.wf()
                &&& n.id == id
                &&& n.audio_enabled == audio_enabled
                &&& n.video_enabled == video_enabled
                &&& n.slots@.len() == 0
                &&& n.control_points@.len() == 0
                &&& n.consumers.audio@.len() == 0
                &&& n.consumers.video@.len() == 0
                &&& n.timing == Timing::new_spec()
                &&& forall|k: Seq<char>| #[trigger] configured_setting_holds(config, n.settings@, k)
            },
    {
        let mut settings = default_settings();
        let ghost defaults = settings@;
        if let Some(cfg) = &config {
            assert(config == Some(*cfg));
            let mut i: usize = 0;
            while i < cfg.len()
                invariant
                    config == Some(*cfg),
                    i <= cfg.len(),
                    config_error(cfg@.take(i as int)) is None,
                    keys_distinct(settings@),
                    forall|k: Seq<char>| #[trigger] lookup(settings@, k) == match lookup(cfg@.take(i as int), k) {
                        Some(v) => Some(v),
                        None => lookup(defaults, k),
                    },
                decreases cfg.len() - i,
            {
                assert(cfg@.take(i as int + 1).drop_last() =~= cfg@.take(i as int));
                match validate_setting_value(&cfg[i].key, &cfg[i].value) {
                    Err(e) => {
                        proof {
                            lemma_first_error_stays(cfg@, i as int);
                            assert(config_error(cfg@) == Some(e@));
                        }
                        return Err(e);
                    },
                    Ok(()) => {},
                }
                put_setting(&mut settings, &cfg[i].key, cfg[i].value.clone());
                i = i + 1;
            }
            assert(cfg@.take(cfg.len() as int) =~= cfg@);
        }
        let timing = Timing::new();
        let pipeline = MixerPipelineProfile::from_settings(&settings, audio_enabled, video_enabled, MixerPipelineStage::Idle);
        Ok(MixerNode {
            id,
            audio_enabled,
            video_enabled,
            slots: Vec::new(),
            consumers: Consumers::new(),
            timing,
            settings,
            control_points: Vec::new(),
            pipeline,
        })
    }

    pub open spec fn width(&self) -> int {
        int_setting(lookup(self.settings@, "width"@), 1920)
    }

    pub open spec fn height(&self) -> int {
        int_setting(lookup(self.settings@, "height"@), 1080)
    }
}

proof fn lemma_first_error_stays(cfg: Seq<Setting>, i: int)
    requires
        0 <= i < cfg.len(),
        config_error(cfg.take(i)) is None,
        setting_error(cfg[i].key@, cfg[i].value) is Some,
    ensures
        config_error(cfg) == setting_error(cfg[i].key@, cfg[i].value),
    decreases cfg.len(),
{
    if i == cfg.len() - 1 {
        assert(cfg.drop_last() =~= cfg.take(i));
    } else {
        assert(cfg.drop_last().take(i) =~= cfg.take(i));
        lemma_first_error_stays(cfg.drop_last(), i);
    }
}

proof fn lemma_whole_scaled(n: i64)
    ensures
        i64::MIN <= whole(n as int) * UNIT <= i64::MAX,
{
    let u = UNIT as int;
    if n >= 0 {
        vstd::arithmetic::div_mod::lemma_fundamental_div_mod(n as int, u);
        vstd::arithmetic::div_mod::lemma_mod_bound(n as int, u);
        vstd::arithmetic::div_mod::lemma_div_pos_is_pos(n as int, u);
        assert(0 <= (n as int / u) * u <= n) by (nonlinear_arith)
            requires
                n as int == u * (n as int / u) + n as int % u,
                0 <= n as int % u,
                0 <= n as int / u,
                u > 0,
        ;
    } else {
        let m = -(n as int);
        vstd::arithmetic::div_mod::lemma_fundamental_div_mod(m, u);
        vstd::arithmetic::div_mod::lemma_mod_bound(m, u);
        vstd::arithmetic::div_mod::lemma_div_pos_is_pos(m, u);
        assert(0 <= (m / u) * u <= m) by (nonlinear_arith)
            requires
                m == u * (m / u) + m % u,
                0 <= m % u,
                0 <= m / u,
                u > 0,
        ;
        assert(whole(n as int) * UNIT == -((m / u) * u)) by (nonlinear_arith)
            requires
                whole(n as int) == -(m / u),
                u == UNIT,
        ;
    }
}

fn read_dimension(settings: &Vec<Setting>, key: &str, fallback: i64) -> (r: i64)
    requires
        keys_distinct(settings@),
        0 <= fallback <= 1000000,
    ensures
        r as int == int_setting(lookup(settings@, key@), fallback as int) * UNIT,
{
    let k = String::from_str(key);
    match get_setting(settings, &k) {
        Some(Value::Number(n)) => {
            proof {
                lemma_whole_scaled(n);
            }
            whole_units(n) * UNIT
        },
        _ => fallback * UNIT,
    }
}

/// The slot setting under `k`: the configured value, or else the default.
pub open spec fn slot_setting_holds(config: Option<Vec<Setting>>, settings: Seq<Setting>, k: Seq<char>, audio: bool, video: bool, w: int, h: int) -> bool {
    let from_config = match config {
        Some(cfg) => lookup(cfg@, k),
        None => None,
    };
    match from_config {
        Some(v) => lookup(settings, k) == Some(v),
        None => slot_default_holds(k, lookup(settings, k), audio, video, w, h),
    }
}

proof fn lemma_slot_keys_differ()
    ensures
        "video::x"@ != "video::y"@,
        "video::x"@.len() == 8 && "video::y"@.len() == 8,
        "video::width"@.len() == 12 && "video::alpha"@.len() == 12,
        "video::width"@ != "video::alpha"@,
        "video::height"@.len() == 13 && "video::zorder"@.len() == 13 && "audio::volume"@.len() == 13,
        "video::height"@ != "video::zorder"@,
        "video::height"@ != "audio::volume"@,
        "video::zorder"@ != "audio::volume"@,
{
    reveal_strlit("video::x");
    reveal_strlit("video::y");
    reveal_strlit("video::width");
    reveal_strlit("video::alpha");
    reveal_strlit("video::height");
    reveal_strlit("video::zorder");
    reveal_strlit("audio::volume");
    assert("video::x"@[7] != "video::y"@[7]);
    assert("video::width"@[7] != "video::alpha"@[7]);
    assert("video::height"@[7] != "video::zorder"@[7]);
    assert("video::height"@[0] != "audio::volume"@[0]);
    assert("video::zorder"@[0] != "audio::volume"@[0]);
}

impl MixerNode {
    /// The settings a new slot starts from.
    fn default_slot_settings(&self, audio: bool, video: bool) -> (r: Vec<Setting>)
        requires
            self.wf(),
        ensures
            keys_distinct(r@),
            forall|k: Seq<char>| slot_default_holds(k, #[trigger] lookup(r@, k), audio, video, self.width(), self.height()),
    {
        let w = read_dimension(&self.settings, "width", 1920);
        let h = read_dimension(&self.settings, "height", 1080);
        let mut s: Vec<Setting> = Vec::new();
        let ghost s0 = s@;
        if video {
            put_setting(&mut s, &String::from_str("video::x"), Value::Number(0));
            put_setting(&mut s, &String::from_str("video::y"), Value::Number(0));
            put_setting(&mut s, &String::from_str("video::width"), Value::Number(w));
            put_setting(&mut s, &String::from_str("video::height"), Value::Number(h));
            put_setting(&mut s, &String::from_str("video::alpha"), Value::Number(UNIT));
            put_setting(&mut s, &String::from_str("video::zorder"), Value::Number(0));
        }
        let ghost s1 = s@;
        if audio {
            put_setting(&mut s, &String::from_str("audio::volume"), Value::Number(UNIT));
        }
        proof {
            lemma_slot_keys_differ();
            assert forall|k: Seq<char>| slot_default_holds(k, #[trigger] lookup(s@, k), audio, video, self.width(), self.height()) by {
                assert(lookup(s0, k) is None);
            }
        }
        s
    }

    /// Connects `link_id` as an input slot: its settings are the defaults for
    /// its media, overridden by `config`; fails, changing nothing, on the first
    /// configuration entry that is malformed, names a disabled medium, or has
    /// a value of the wrong type.
    pub fn connect_input_slot(&mut self, link_id: &String, audio: bool, video: bool, config: Option<Vec<Setting>>) -> (r: Result<(), String>)
        requires
            old(self).wf(),
        ensures
            final(self).wf(),
            match config {
                Some(cfg) => match slot_config_error(cfg@, link_id@, audio, video) {
                    Some(m) => r is Err && r->Err_0@ == m,
                    None => r is Ok,
                },
                None => r is Ok,
            },
            r is Err ==> *final(self) == *old(self),
            r is Ok ==> {
                &&& final(self).id == old(self).id
                &&& final(self).audio_enabled == old(self).audio_enabled
                &&& final(self).video_enabled == old(self).video_enabled
                &&& final(self).consumers == old(self).consumers
                &&& final(self).timing == old(self).timing
                &&& final(self).settings == old(self).settings
                &&& final(self).control_points == old(self).control_points
                &&& slot_ids(final(self).slots@) == if slot_ids(old(self).slots@).contains(link_id@) {
                    slot_ids(old(self).slots@)
                } else {
                    slot_ids(old(self).slots@).push(link_id@)
                }
                &&& forall|i: int| 0 <= i < old(self).slots.len() && old(self).slots@[i].slot_id@ != link_id@
                    ==> #[trigger] final(self).slots@[i] == old(self).slots@[i]
                &&& exists|j: int| 0 <= j < final(self).slots.len() && #[trigger] final(self).slots@[j].slot_id@ == link_id@ && {
                    let slot = final(self).slots@[j];
                    &&& slot.volume == volume_of(lookup(slot.settings@, "audio::volume"@))
                    &&& forall|k: Seq<char>| #[trigger] slot_setting_holds(config, slot.settings@, k, audio, video, old(self).width(), old(self).height())
                }
            },
    {
        let mut merged = self.default_slot_settings(audio, video);
        let ghost defaults = merged@;
        if let Some(cfg) = &config {
            let mut i: usize = 0;
            while i < cfg.len()
                invariant
                    config == Some(*cfg),
                    i <= cfg.len(),
                    slot_config_error(cfg@.take(i as int), link_id@, audio, video) is None,
                    keys_distinct(merged@),
                    *self == *old(self),
                    self.wf(),
                    forall|k: Seq<char>| #[trigger] lookup(merged@, k) == match lookup(cfg@.take(i as int), k) {
                        Some(v) => Some(v),
                        None => lookup(defaults, k),
                    },
                decreases cfg.len() - i,
            {
                assert(cfg@.take(i as int + 1).drop_last() =~= cfg@.take(i as int));
                let key = &cfg[i].key;
                let checked = match parse_slot_config_key(key) {
                    Err(e) => Err(e),
                    Ok((is_video, property)) => {
                        if is_video && !video {
                            Err(join4("Cannot set ", key.as_str(), " on link ", link_id.as_str()).concat("; video is not enabled for this link"))
                        } else if !is_video && !audio {
                            Err(join4("Cannot set ", key.as_str(), " on link ", link_id.as_str()).concat("; audio is not enabled for this link"))
                        } else {
                            validate_slot_value(is_video, &property, &cfg[i].value)
                        }
                    },
                };
                match checked {
                    Err(e) => {
                        proof {
                            lemma_first_slot_error_stays(cfg@, i as int, link_id@, audio, video);
                        }
                        return Err(e);
                    },
                    Ok(()) => {},
                }
                put_setting(&mut merged, key, cfg[i].value.clone());
                i = i + 1;
            }
            assert(cfg@.take(cfg.len() as int) =~= cfg@);
        }
        let vkey = String::from_str("audio::volume");
        let volume = match get_setting(&merged, &vkey) {
            Some(Value::Number(n)) => n,
            _ => UNIT,
        };
        let ghost old_slots = self.slots@;
        match find_slot(&self.slots, link_id) {
            Some(j) => {
                let mut slot = MixerSlot { slot_id: String::new(), volume: 0, settings: Vec::new(), control_points: Vec::new() };
                std::mem::swap(&mut slot, &mut self.slots[j]);
                assert(slot == old_slots[j as int]);
                assert(old_slots[j as int].wf());
                slot.settings = merged;
                slot.volume = volume;
                assert(slot.wf());
                self.slots.set(j, slot);
                proof {
                    assert(slot_ids(self.slots@) =~= slot_ids(old_slots));
                    assert(slot_ids(old_slots)[j as int] == link_id@);
                    assert(slot_ids(old_slots).contains(link_id@));
                    assert(self.slots@[j as int].slot_id@ == link_id@);
                    assert forall|i: int| 0 <= i < self.slots.len() implies #[trigger] self.slots@[i].wf() by {
                        if i != j {
                            assert(self.slots@[i] == old_slots[i]);
                        }
                    }
                }
            },
            None => {
                let control_points: Vec<Series> = Vec::new();
                self.slots.push(MixerSlot { slot_id: link_id.clone(), volume, settings: merged, control_points });
                proof {
                    assert(slot_ids(self.slots@) =~= slot_ids(old_slots).push(link_id@));
                    assert(self.slots@[old_slots.len() as int].slot_id@ == link_id@);
                    assert forall|i: int| 0 <= i < self.slots.len() implies #[trigger] self.slots@[i].wf() by {
                        if i < old_slots.len() {
                            assert(self.slots@[i] == old_slots[i]);
                        }
                    }
                }
            },
        }
        Ok(())
    }

    /// Drops the slot of `link_id`, with its settings and control points.
    pub fn disconnect_input_slot(&mut self, link_id: &String)
        requires
            old(self).wf(),
        ensures
            final(self).wf(),
            final(self).id == old(self).id,
            final(self).audio_enabled == old(self).audio_enabled,
            final(self).video_enabled == old(self).video_enabled,
            final(self).consumers == old(self).consumers,
            final(self).timing == old(self).timing,
            final(self).settings == old(self).settings,
            final(self).control_points == old(self).control_points,
            !slot_ids(final(self).slots@).contains(link_id@),
            forall|i: int| 0 <= i < final(self).slots.len() ==> old(self).slots@.contains(#[trigger] final(self).slots@[i]),
            forall|i: int| 0 <= i < old(self).slots.len() && old(self).slots@[i].slot_id@ != link_id@
                ==> final(self).slots@.contains(#[trigger] old(self).slots@[i]),
    {
        match find_slot(&self.slots, link_id) {
            Some(j) => {
                let ghost old_slots = self.slots@;
                self.slots.remove(j);
                proof {
                    assert(self.slots@ =~= old_slots.remove(j as int));
                    assert forall|i: int| 0 <= i < self.slots.len() implies old_slots.contains(#[trigger] self.slots@[i]) by {
                        if i < j {
                            assert(self.slots@[i] == old_slots[i]);
                        } else {
                            assert(self.slots@[i] == old_slots[i + 1]);
                        }
                    }
                    assert forall|i: int| 0 <= i < old_slots.len() && old_slots[i].slot_id@ != link_id@ implies self.slots@.contains(#[trigger] old_slots[i]) by {
                        if i < j {
                            assert(self.slots@[i] == old_slots[i]);
                        } else {
                            assert(i != j);
                            assert(self.slots@[i - 1] == old_slots[i]);
                        }
                    }
                    assert forall|i: int| 0 <= i < self.slots.len() implies #[trigger] self.slots@[i].wf() by {
                        if i < j {
                            assert(self.slots@[i] == old_slots[i]);
                        } else {
                            assert(self.slots@[i] == old_slots[i + 1]);
                        }
                    }
                    assert forall|a: int, b: int| 0 <= a < b < slot_ids(self.slots@).len() implies slot_ids(self.slots@)[a] != slot_ids(self.slots@)[b] by {
                        let a2 = if a < j { a } else { a + 1 };
                        let b2 = if b < j { b } else { b + 1 };
                        assert(slot_ids(old_slots)[a2] != slot_ids(old_slots)[b2]);
                    }
                    if slot_ids(self.slots@).contains(link_id@) {
                        let k = choose|k: int| 0 <= k < slot_ids(self.slots@).len() && slot_ids(self.slots@)[k] == link_id@;
                        let k2 = if k < j { k } else { k + 1 };
                        assert(slot_ids(old_slots)[k2] == slot_ids(old_slots)[j as int]);
                    }
                }
            },
            None => {
                proof {
                    assert forall|i: int| 0 <= i < self.slots.len() implies self.slots@.contains(#[trigger] self.slots@[i]) by {}
                }
            },
        }
    }
}

proof fn lemma_first_slot_error_stays(cfg: Seq<Setting>, i: int, link_id: Seq<char>, audio: bool, video: bool)
    requires
        0 <= i < cfg.len(),
        slot_config_error(cfg.take(i), link_id, audio, video) is None,
        slot_entry_error(cfg[i], link_id, audio, video) is Some,
    ensures
        slot_config_error(cfg, link_id, audio, video) == slot_entry_error(cfg[i], link_id, audio, video),
    decreases cfg.len(),
{
    if i == cfg.len() - 1 {
        assert(cfg.drop_last() =~= cfg.take(i));
    } else {
        assert(cfg.drop_last().take(i) =~= cfg.take(i));
        lemma_first_slot_error_stays(cfg.drop_last(), i, link_id, audio, video);
    }
}

impl MixerNode {
    /// The node with its settings and every slot evaluated at `now`.
    pub open spec fn applied(&self, before: MixerNode, now: int) -> bool {
        &&& self.id == before.id
        &&& self.audio_enabled == before.audio_enabled
        &&& self.video_enabled == before.video_enabled
        &&& self.consumers == before.consumers
        &&& self.timing == before.timing
        &&& self.control_points == before.control_points
        &&& self.pipeline.stage == before.pipeline.stage
        &&& self.slots.len() == before.slots.len()
        &&& forall|k: Seq<char>| #[trigger] lookup(self.settings@, k) == applied_value(before.settings@, before.control_points@, now, k)
        &&& forall|i: int| 0 <= i < self.slots.len() ==> slot_applied(before.slots@[i], #[trigger] self.slots@[i], now)
    }

    /// Evaluates every series at `now` and stores the values in the settings
    /// they control; a slot's `audio::volume` also sets its volume.
    pub fn apply_control_points(&mut self, now: Timestamp)
        requires
            old(self).wf(),
        ensures
            final(self).wf(),
            final(self).applied(*old(self), now as int),
    {
        apply_series(&mut self.settings, &self.control_points, now);
        let ghost before = *old(self);
        let mut i: usize = 0;
        while i < self.slots.len()
            invariant
                i <= self.slots.len(),
                self.slots.len() == before.slots.len(),
                self.consumers == before.consumers,
                self.id == before.id,
                self.audio_enabled == before.audio_enabled,
                self.video_enabled == before.video_enabled,
                self.timing == before.timing,
                self.control_points == before.control_points,
                self.pipeline.stage == before.pipeline.stage,
                keys_distinct(self.settings@),
                forall|k: Seq<char>| #[trigger] lookup(self.settings@, k) == applied_value(before.settings@, before.control_points@, now as int, k),
                forall|j: int| 0 <= j < i ==> slot_applied(before.slots@[j], #[trigger] self.slots@[j], now as int),
                forall|j: int| i <= j < self.slots.len() ==> #[trigger] self.slots@[j] == before.slots@[j],
                forall|j: int| 0 <= j < self.slots.len() ==> #[trigger] self.slots@[j].wf(),
                slot_ids(self.slots@) == slot_ids(before.slots@),
                before.wf(),
            decreases self.slots.len() - i,
        {
            let ghost prev = self.slots@;
            let mut slot = MixerSlot { slot_id: String::new(), volume: 0, settings: Vec::new(), control_points: Vec::new() };
            std::mem::swap(&mut slot, &mut self.slots[i]);
            assert(slot == prev[i as int]);
            apply_slot(&mut slot, now);
            self.slots.set(i, slot);
            proof {
                assert forall|j: int| 0 <= j < self.slots.len() && j != i implies #[trigger] self.slots@[j] == prev[j] by {}
                assert(slot_ids(self.slots@) =~= slot_ids(prev));
            }
            i = i + 1;
        }
    }

    pub fn connect_output_consumer(&mut self, link_id: &String, audio: bool, video: bool)
        requires
            old(self).wf(),
        ensures
            final(self).wf(),
            final(self).consumers.wf(),
            texts(final(self).consumers.audio@) == if audio && !texts(old(self).consumers.audio@).contains(link_id@) {
                texts(old(self).consumers.audio@).push(link_id@)
            } else {
                texts(old(self).consumers.audio@)
            },
            texts(final(self).consumers.video@) == if video && !texts(old(self).consumers.video@).contains(link_id@) {
                texts(old(self).consumers.video@).push(link_id@)
            } else {
                texts(old(self).consumers.video@)
            },
            final(self).id == old(self).id,
            final(self).audio_enabled == old(self).audio_enabled,
            final(self).video_enabled == old(self).video_enabled,
            final(self).slots == old(self).slots,
            final(self).timing == old(self).timing,
            final(self).settings == old(self).settings,
    {
        self.consumers.add(link_id, audio, video);
    }

    pub fn disconnect_output_consumer(&mut self, link_id: &String)
        requires
            old(self).wf(),
        ensures
            final(self).wf(),
            texts(final(self).consumers.audio@) == crate::text::without_text(texts(old(self).consumers.audio@), link_id@),
            texts(final(self).consumers.video@) == crate::text::without_text(texts(old(self).consumers.video@), link_id@),
            final(self).id == old(self).id,
            final(self).audio_enabled == old(self).audio_enabled,
            final(self).video_enabled == old(self).video_enabled,
            final(self).slots == old(self).slots,
            final(self).timing == old(self).timing,
            final(self).settings == old(self).settings,
    {
        self.consumers.remove(link_id);
    }

    /// Adds a control point for a known setting, then evaluates every series
    /// at `now`; fails, changing nothing, on an unknown setting or a value of
    /// the wrong type.
    pub fn add_control_point(&mut self, property: &String, cp: ControlPoint, now: Timestamp) -> (r: Result<(), String>)
        requires
            old(self).wf(),
        ensures
            final(self).wf(),
            lookup(old(self).settings@, property@) is None ==> r is Err
                && r->Err_0@ == "Mixer "@ + old(self).id@ + " has no setting with name "@ + property@,
            lookup(old(self).settings@, property@) is Some ==> match setting_error(property@, cp.value) {
                Some(m) => r is Err && r->Err_0@ == m,
                None => r is Ok,
            },
            r is Err ==> *final(self) == *old(self),
            r is Ok ==> {
                &&& points_for(final(self).control_points@, property@) == Some(with_point(old(self).control_points@, property@, cp))
                &&& forall|p: Seq<char>| p != property@ ==> #[trigger] points_for(final(self).control_points@, p) == points_for(old(self).control_points@, p)
                &&& forall|k: Seq<char>| #[trigger] lookup(final(self).settings@, k) == applied_value(old(self).settings@, final(self).control_points@, now as int, k)
                &&& forall|i: int| 0 <= i < final(self).slots.len() ==> slot_applied(old(self).slots@[i], #[trigger] final(self).slots@[i], now as int)
                &&& final(self).slots.len() == old(self).slots.len()
                &&& final(self).id == old(self).id
                &&& final(self).audio_enabled == old(self).audio_enabled
                &&& final(self).video_enabled == old(self).video_enabled
                &&& final(self).timing == old(self).timing
            },
    {
        if find_setting_index(&self.settings, property).is_none() {
            return Err(join4("Mixer ", self.id.as_str(), " has no setting with name ", property.as_str()));
        }
        validate_setting_value(property, &cp.value)?;
        add_point(&mut self.control_points, property, cp);
        self.apply_control_points(now);
        Ok(())
    }

    /// Removes the points named `controller_id` from the series of
    /// `property`, then evaluates every series at `now`.
    pub fn remove_control_point(&mut self, controller_id: &String, property: &String, now: Timestamp)
        requires
            old(self).wf(),
        ensures
            final(self).wf(),
            points_for(final(self).control_points@, property@) == match points_for(old(self).control_points@, property@) {
                Some(pts) => Some(without_id(pts, controller_id@)),
                None => None,
            },
            forall|p: Seq<char>| p != property@ ==> #[trigger] points_for(final(self).control_points@, p) == points_for(old(self).control_points@, p),
            forall|k: Seq<char>| #[trigger] lookup(final(self).settings@, k) == applied_value(old(self).settings@, final(self).control_points@, now as int, k),
            final(self).slots.len() == old(self).slots.len(),
            final(self).id == old(self).id,
            final(self).audio_enabled == old(self).audio_enabled,
            final(self).video_enabled == old(self).video_enabled,
            final(self).timing == old(self).timing,
    {
        remove_point(&mut self.control_points, property, controller_id);
        self.apply_control_points(now);
    }
}

fn find_setting_index(settings: &Vec<Setting>, key: &String) -> (r: Option<usize>)
    requires
        keys_distinct(settings@),
    ensures
        r is None <==> lookup(settings@, key@) is None,
{
    let r = crate::settings::find_setting(settings, key);
    proof {
        if r is None {
            crate::settings::lemma_lookup_missing(settings@, key@);
        } else {
            crate::settings::lemma_lookup_found(settings@, r->0 as int);
        }
    }
    r
}

/// Why a slot control point is refused, if it is.
pub open spec fn slot_point_error(m: MixerNode, slot_id: Seq<char>, property: Seq<char>, cp: ControlPoint) -> Option<Seq<char>> {
    if !slot_ids(m.slots@).contains(slot_id) {
        Some("Mixer "@ + m.id@ + " has no slot with id "@ + slot_id)
    } else {
        match slot_key(property) {
            Err(e) => Some(e),
            Ok((is_video, name)) => slot_value_error(is_video, name, cp.value),
        }
    }
}

impl MixerNode {
    /// The node after a slot operation that changed the series of slot `j`
    /// only, and every series was then evaluated at `now`.
    pub open spec fn slot_series_changed(&self, before: MixerNode, j: int, now: int) -> bool {
        &&& self.id == before.id
        &&& self.audio_enabled == before.audio_enabled
        &&& self.video_enabled == before.video_enabled
        &&& self.timing == before.timing
        &&& self.control_points == before.control_points
        &&& self.slots.len() == before.slots.len()
        &&& 0 <= j < self.slots.len()
        &&& forall|k: Seq<char>| #[trigger] lookup(self.settings@, k) == applied_value(before.settings@, before.control_points@, now, k)
        &&& forall|i: int| 0 <= i < self.slots.len() && i != j ==> slot_applied(before.slots@[i], #[trigger] self.slots@[i], now)
        &&& self.slots@[j].slot_id == before.slots@[j].slot_id
        &&& applied_from(before.slots@[j].settings@, before.slots@[j].volume, self.slots@[j].control_points@, self.slots@[j], now)
    }

    /// Adds a control point to a slot property, then evaluates every series
    /// at `now`; fails, changing nothing, on a missing slot, a malformed
    /// property or a value of the wrong type.
    pub fn add_slot_control_point(&mut self, slot_id: &String, property: &String, cp: ControlPoint, now: Timestamp) -> (r: Result<(), String>)
        requires
            old(self).wf(),
        ensures
            final(self).wf(),
            match slot_point_error(*old(self), slot_id@, property@, cp) {
                Some(m) => r is Err && r->Err_0@ == m,
                None => r is Ok,
            },
            r is Err ==> *final(self) == *old(self),
            r is Ok ==> exists|j: int| #[trigger] final(self).slot_series_changed(*old(self), j, now as int)
                && old(self).slots@[j].slot_id@ == slot_id@
                && points_for(final(self).slots@[j].control_points@, property@) == Some(with_point(old(self).slots@[j].control_points@, property@, cp))
                && forall|p: Seq<char>| p != property@ ==> #[trigger] points_for(final(self).slots@[j].control_points@, p) == points_for(old(self).slots@[j].control_points@, p),
    {
        let j = match find_slot(&self.slots, slot_id) {
            Some(j) => j,
            None => {
                return Err(join4("Mixer ", self.id.as_str(), " has no slot with id ", slot_id.as_str()));
            },
        };
        proof {
            assert(slot_ids(self.slots@)[j as int] == slot_id@);
        }
        let (is_video, name) = parse_slot_config_key(property)?;
        validate_slot_value(is_video, &name, &cp.value)?;
        let ghost before = *self;
        let mut slot = MixerSlot { slot_id: String::new(), volume: 0, settings: Vec::new(), control_points: Vec::new() };
        std::mem::swap(&mut slot, &mut self.slots[j]);
        assert(slot == before.slots@[j as int]);
        assert(slot.wf());
        add_point(&mut slot.control_points, property, cp);
        self.slots.set(j, slot);
        let ghost mid = *self;
        proof {
            assert forall|i: int| 0 <= i < self.slots.len() && i != j implies #[trigger] self.slots@[i] == before.slots@[i] by {}
            assert(slot_ids(self.slots@) =~= slot_ids(before.slots@));
        }
        self.apply_control_points(now);
        proof {
            assert(self.slot_series_changed(before, j as int, now as int));
        }
        Ok(())
    }

    /// Removes the points named `controller_id` from a slot property's
    /// series, then evaluates every series at `now`.
    pub fn remove_slot_control_point(&mut self, controller_id: &String, slot_id: &String, property: &String, now: Timestamp)
        requires
            old(self).wf(),
        ensures
            final(self).wf(),
            !slot_ids(old(self).slots@).contains(slot_id@) ==> final(self).applied(*old(self), now as int),
            slot_ids(old(self).slots@).contains(slot_id@) ==> exists|j: int| #[trigger] final(self).slot_series_changed(*old(self), j, now as int)
                && old(self).slots@[j].slot_id@ == slot_id@
                && points_for(final(self).slots@[j].control_points@, property@) == match points_for(old(self).slots@[j].control_points@, property@) {
                    Some(pts) => Some(without_id(pts, controller_id@)),
                    None => None,
                }
                && forall|p: Seq<char>| p != property@ ==> #[trigger] points_for(final(self).slots@[j].control_points@, p) == points_for(old(self).slots@[j].control_points@, p),
    {
        match find_slot(&self.slots, slot_id) {
            Some(j) => {
                let ghost before = *self;
                let mut slot = MixerSlot { slot_id: String::new(), volume: 0, settings: Vec::new(), control_points: Vec::new() };
                std::mem::swap(&mut slot, &mut self.slots[j]);
                assert(slot == before.slots@[j as int]);
                assert(slot.wf());
                remove_point(&mut slot.control_points, property, controller_id);
                self.slots.set(j, slot);
                proof {
                    assert(slot_ids(before.slots@)[j as int] == slot_id@);
                    assert forall|i: int| 0 <= i < self.slots.len() && i != j implies #[trigger] self.slots@[i] == before.slots@[i] by {}
                    assert(slot_ids(self.slots@) =~= slot_ids(before.slots@));
                }
                self.apply_control_points(now);
                proof {
                    assert(self.slot_series_changed(before, j as int, now as int));
                }
            },
            None => {
                self.apply_control_points(now);
            },
        }
    }

    /// Evaluates every series at `now`, then takes the transitions due.
    pub fn refresh(&mut self, now: Timestamp)
        requires
            old(self).wf(),
        ensures
            final(self).wf(),
            final(self).id == old(self).id,
            final(self).audio_enabled == old(self).audio_enabled,
            final(self).video_enabled == old(self).video_enabled,
            final(self).consumers == old(self).consumers,
            final(self).control_points == old(self).control_points,
            final(self).timing.cue_time == old(self).timing.cue_time,
            final(self).timing.end_time == old(self).timing.end_time,
            final(self).timing.last_error == old(self).timing.last_error,
            final(self).timing.state == old(self).timing.advanced(now as int, true),
            final(self).timing.scheduled == old(self).timing.scheduled,
            slot_ids(final(self).slots@) == slot_ids(old(self).slots@),
            final(self).slots.len() == old(self).slots.len(),
            forall|i: int| 0 <= i < final(self).slots.len() ==> slot_applied(old(self).slots@[i], #[trigger] final(self).slots@[i], now as int),
            forall|k: Seq<char>| #[trigger] lookup(final(self).settings@, k) == applied_value(old(self).settings@, old(self).control_points@, now as int, k),
    {
        self.apply_control_points(now);
        proof {
            assert(slot_ids(self.slots@) =~= slot_ids(old(self).slots@));
        }
        self.timing.refresh(now, true);
        self.pipeline.stage = mixer_stage_for(self.timing.state);
    }

    /// Evaluates every series at `now`, sets the new times, and rebuilds the
    /// profile from the settings.
    pub fn schedule(&mut self, cue_time: Option<Timestamp>, end_time: Option<Timestamp>, now: Timestamp)
        requires
            old(self).wf(),
        ensures
            final(self).wf(),
            final(self).id == old(self).id,
            final(self).audio_enabled == old(self).audio_enabled,
            final(self).video_enabled == old(self).video_enabled,
            final(self).consumers == old(self).consumers,
            final(self).control_points == old(self).control_points,
            final(self).timing.cue_time == cue_time,
            final(self).timing.end_time == end_time,
            final(self).timing.last_error is None,
            final(self).timing.state == settle(State::Initial, cue_time, end_time, now as int, true),
            final(self).timing.scheduled,
            slot_ids(final(self).slots@) == slot_ids(old(self).slots@),
    {
        self.apply_control_points(now);
        proof {
            assert(slot_ids(self.slots@) =~= slot_ids(old(self).slots@));
        }
        self.timing.reschedule(cue_time, end_time, now, true);
        let stage = mixer_stage_for(self.timing.state);
        self.pipeline = MixerPipelineProfile::from_settings(&self.settings, self.audio_enabled, self.video_enabled, stage);
    }

    pub fn stop(&mut self)
        requires
            old(self).wf(),
        ensures
            final(self).wf(),
            final(self).id == old(self).id,
            final(self).audio_enabled == old(self).audio_enabled,
            final(self).video_enabled == old(self).video_enabled,
            final(self).consumers == old(self).consumers,
            final(self).slots == old(self).slots,
            final(self).timing.state == State::Stopped,
    {
        self.timing.stop();
        self.pipeline.stage = MixerPipelineStage::Idle;
    }

    /// The info lists the slots with their volumes, settings and control
    /// points, the consumers, the schedule, the state and the settings.
    #[verifier::opaque]
    pub open spec fn info_of(&self, i: MixerInfo) -> bool {
        &&& i.state == self.timing.state
        &&& i.cue_time == self.timing.cue_time
        &&& i.end_time == self.timing.end_time
        &&& i.settings@ == self.settings@
        &&& i.video_consumer_slot_ids matches Some(v) && v@ == self.consumers.video@
        &&& i.audio_consumer_slot_ids matches Some(a) && a@ == self.consumers.audio@
        &&& i.slots.len() == self.slots.len()
        &&& i.slot_settings.len() == self.slots.len()
        &&& i.slot_control_points.len() == self.slots.len()
        &&& i.control_points.len() == self.control_points.len()
        &&& forall|k: int| 0 <= k < self.control_points.len() ==> #[trigger] i.control_points@[k].property == self.control_points@[k].property
            && i.control_points@[k].points@ == self.control_points@[k].points@
        &&& forall|k: int| 0 <= k < self.slots.len() ==> {
            &&& #[trigger] i.slots@[k].slot_id == self.slots@[k].slot_id
            &&& i.slots@[k].info.volume == self.slots@[k].volume
            &&& i.slot_settings@[k].slot_id == self.slots@[k].slot_id
            &&& i.slot_settings@[k].settings@ == self.slots@[k].settings@
            &&& i.slot_control_points@[k].slot_id == self.slots@[k].slot_id
            &&& i.slot_control_points@[k].series.len() == self.slots@[k].control_points.len()
        }
    }

    pub fn as_info(&self) -> (r: NodeInfo)
        requires
            self.wf(),
        ensures
            r is Mixer,
            self.info_of(r->Mixer_0),
            r->Mixer_0.state == self.timing.state,
            r->Mixer_0.slots.len() == self.slots.len(),
    {
        let (video, audio) = self.consumers.snapshot();
        let mut slots: Vec<SlotEntry> = Vec::new();
        let mut slot_settings: Vec<SlotSettings> = Vec::new();
        let mut slot_control_points: Vec<SlotSeries> = Vec::new();
        let mut i: usize = 0;
        while i < self.slots.len()
            invariant
                i <= self.slots.len(),
                slots.len() == i,
                slot_settings.len() == i,
                slot_control_points.len() == i,
                forall|j: int| 0 <= j < i ==> {
                    &&& #[trigger] slots@[j].slot_id == self.slots@[j].slot_id
                    &&& slots@[j].info.volume == self.slots@[j].volume
                    &&& slot_settings@[j].slot_id == self.slots@[j].slot_id
                    &&& slot_settings@[j].settings@ == self.slots@[j].settings@
                    &&& slot_control_points@[j].slot_id == self.slots@[j].slot_id
                    &&& slot_control_points@[j].series.len() == self.slots@[j].control_points.len()
                },
            decreases self.slots.len() - i,
        {
            let slot = &self.slots[i];
            slots.push(SlotEntry { slot_id: slot.slot_id.clone(), info: MixerSlotInfo { volume: slot.volume } });
            slot_settings.push(SlotSettings { slot_id: slot.slot_id.clone(), settings: crate::settings::clone_settings(&slot.settings) });
            slot_control_points.push(SlotSeries { slot_id: slot.slot_id.clone(), series: crate::settings::clone_series(&slot.control_points) });
            i = i + 1;
        }
        let control_points = crate::settings::clone_series(&self.control_points);
        proof {
            assert forall|i: int| 0 <= i < self.control_points.len() implies #[trigger] control_points@[i].property == self.control_points@[i].property
                && control_points@[i].points@ == self.control_points@[i].points@ by {}
        }
        let info = MixerInfo {
            slots,
            video_consumer_slot_ids: Some(video),
            audio_consumer_slot_ids: Some(audio),
            cue_time: self.timing.cue_time,
            end_time: self.timing.end_time,
            state: self.timing.state,
            settings: crate::settings::clone_settings(&self.settings),
            control_points,
            slot_settings,
            slot_control_points,
        };
        proof {
            reveal(MixerNode::info_of);
            assert(self.info_of(info));
        }
        NodeInfo::Mixer(info)
    }
}

/// The primitive type a pad property expects.
#[derive(Clone, Copy, Debug, PartialEq, Eq, Structural)]
pub enum PadType {
    Bool,
    Str,
    I32,
    U32,
    I64,
    U64,
    Other,
}

/// A slot value converted to a pad property's type.
#[derive(Debug, Clone)]
pub enum PadValue {
    Bool(bool),
    Str(String),
    I32(i32),
    U32(u32),
    I64(i64),
    U64(u64),
}

/// `r` is `value` converted for a pad property of type `ty`: numbers are
/// narrowed to their whole part and must fit; a negative number does not fit
/// an unsigned type; a value of the wrong kind, or a type that cannot be
/// set, is refused with a diagnostic naming the property.
pub open spec fn pad_value_holds(ty: PadType, p: Seq<char>, value: Value, r: Result<PadValue, String>) -> bool {
    match ty {
        PadType::Bool => match value {
            Value::Bool(b) => r matches Ok(PadValue::Bool(x)) && x == b,
            _ => r is Err && r->Err_0@ == p + " expects a boolean value"@,
        },
        PadType::Str => match value {
            Value::Text(t) => r matches Ok(PadValue::Str(x)) && x@ == t@,
            _ => r is Err && r->Err_0@ == p + " expects a string value"@,
        },
        PadType::I32 => match value {
            Value::Number(n) => if i32::MIN <= whole(n as int) <= i32::MAX {
                r matches Ok(PadValue::I32(x)) && x as int == whole(n as int)
            } else {
                r is Err && r->Err_0@ == p + " is out of i32 range"@
            },
            _ => r is Err && r->Err_0@ == p + " expects a numeric value"@,
        },
        PadType::U32 => match value {
            Value::Number(n) => if n < 0 {
                r is Err && r->Err_0@ == p + " expects an unsigned numeric value"@
            } else if whole(n as int) <= u32::MAX {
                r matches Ok(PadValue::U32(x)) && x as int == whole(n as int)
            } else {
                r is Err && r->Err_0@ == p + " is out of u32 range"@
            },
            _ => r is Err && r->Err_0@ == p + " expects an unsigned numeric value"@,
        },
        PadType::I64 => match value {
            Value::Number(n) => r matches Ok(PadValue::I64(x)) && x as int == whole(n as int),
            _ => r is Err && r->Err_0@ == p + " expects a numeric value"@,
        },
        PadType::U64 => match value {
            Value::Number(n) => if n < 0 {
                r is Err && r->Err_0@ == p + " expects an unsigned numeric value"@
            } else {
                r matches Ok(PadValue::U64(x)) && x as int == whole(n as int)
            },
            _ => r is Err && r->Err_0@ == p + " expects an unsigned numeric value"@,
        },
        PadType::Other => r is Err && r->Err_0@ == "Unsupported value type for pad property "@ + p,
    }
}

proof fn lemma_whole_bounds(n: i64)
    ensures
        n >= 0 ==> 0 <= whole(n as int) <= n,
        n < 0 ==> n <= whole(n as int) <= 0,
{
    let u = UNIT as int;
    if n >= 0 {
        vstd::arithmetic::div_mod::lemma_div_pos_is_pos(n as int, u);
        vstd::arithmetic::div_mod::lemma_div_is_ordered_by_denominator(n as int, 1, u);
    } else {
        let m = -(n as int);
        vstd::arithmetic::div_mod::lemma_div_pos_is_pos(m, u);
        vstd::arithmetic::div_mod::lemma_div_is_ordered_by_denominator(m, 1, u);
    }
}

/// Converts a slot value for a pad property of type `ty`.
pub fn convert_pad_value(ty: PadType, property: &String, value: &Value) -> (r: Result<PadValue, String>)
    ensures
        pad_value_holds(ty, property@, *value, r),
{
    let p = property.as_str();
    match ty {
        PadType::Bool => match value {
            Value::Bool(b) => Ok(PadValue::Bool(*b)),
            _ => Err(join2(p, " expects a boolean value")),
        },
        PadType::Str => match value {
            Value::Text(t) => Ok(PadValue::Str(t.clone())),
            _ => Err(join2(p, " expects a string value")),
        },
        PadType::I32 => match value {
            Value::Number(n) => {
                let w = whole_units(*n);
                if w >= i32::MIN as i64 && w <= i32::MAX as i64 {
                    Ok(PadValue::I32(w as i32))
                } else {
                    Err(join2(p, " is out of i32 range"))
                }
            },
            _ => Err(join2(p, " expects a numeric value")),
        },
        PadType::U32 => match value {
            Value::Number(n) => {
                if *n < 0 {
                    Err(join2(p, " expects an unsigned numeric value"))
                } else {
                    let w = whole_units(*n);
                    if w <= u32::MAX as i64 {
                        Ok(PadValue::U32(w as u32))
                    } else {
                        Err(join2(p, " is out of u32 range"))
                    }
                }
            },
            _ => Err(join2(p, " expects an unsigned numeric value")),
        },
        PadType::I64 => match value {
            Value::Number(n) => Ok(PadValue::I64(whole_units(*n))),
            _ => Err(join2(p, " expects a numeric value")),
        },
        PadType::U64 => match value {
            Value::Number(n) => {
                if *n < 0 {
                    Err(join2(p, " expects an unsigned numeric value"))
                } else {
                    let w = whole_units(*n);
                    proof {
                        lemma_whole_bounds(*n);
                    }
                    Ok(PadValue::U64(w as u64))
                }
            },
            _ => Err(join2(p, " expects an unsigned numeric value")),
        },
        PadType::Other => Err(join2("Unsupported value type for pad property ", p)),
    }
}

} // verus!
