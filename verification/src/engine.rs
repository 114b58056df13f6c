//! The mixing engine's data model and configuration operations.
//!
//! Assets, tracks and duckers are kept in vectors and addressed by string
//! keys; positions and amplitudes are Q32.32 fixed point (see `fx`).  Each
//! operation's contract relates the engine view after the call to a spec
//! function of the view before it.

use vstd::prelude::*;

use crate::fx::{
    fx_add, fx_cos, fx_exp2_neg, fx_mul, fx_sub, pow10_db, spec_fx_add, spec_fx_cos,
    spec_fx_exp2_neg, spec_fx_mul, spec_fx_sub, spec_pow10_db, FX_ONE, HALF_PI, LOG2_E, QUARTER_PI,
};
use crate::strutil::str_eq;

verus! {

/// How a track behaves at its loop boundary.
#[derive(Clone, Copy, Debug, PartialEq, Eq, Structural)]
pub enum LoopMode {
    /// Play once and stop at the end of the asset.
    Once,
    /// Wrap to the loop start with interpolation across the boundary.
    Seamless,
    /// Declared crossfade looping; rendered like `Seamless`.
    Xfade,
}

/// Loop configuration of a track.
#[derive(Clone, Copy, Debug, PartialEq, Eq, Structural)]
pub struct LoopCfg {
    pub mode: LoopMode,
    /// Loop start, in source samples.
    pub start: usize,
    /// Loop end in source samples; `None` means the end of the asset.
    pub end: Option<usize>,
    /// Crossfade length in source samples (kept, but not used in mixing).
    pub xfade: usize,
}

impl LoopCfg {
    pub open spec fn default_spec() -> LoopCfg {
        LoopCfg { mode: LoopMode::Once, start: 0, end: None, xfade: 0 }
    }

    pub fn default_exec() -> (c: LoopCfg)
        ensures
            c == LoopCfg::default_spec(),
    {
        LoopCfg { mode: LoopMode::Once, start: 0, end: None, xfade: 0 }
    }
}

/// A linear-in-amplitude gain ramp: while `frames` is positive, each
/// rendered frame first moves `gain` one `step` closer to `target` (the
/// last ramp frame lands on the target exactly), then scales that frame.
#[derive(Clone, Copy, Debug, PartialEq, Eq, Structural)]
pub struct GainRamp {
    pub gain: i64,
    pub target: i64,
    pub step: i64,
    pub frames: u64,
}

/// One frame of a gain ramp.
pub open spec fn spec_ramp_step(g: GainRamp) -> GainRamp {
    if g.frames == 0 {
        g
    } else if g.frames == 1 {
        GainRamp { gain: g.target, frames: 0, ..g }
    } else {
        GainRamp { gain: spec_fx_add(g.gain, g.step), frames: (g.frames - 1) as u64, ..g }
    }
}

pub fn ramp_step(g: GainRamp) -> (r: GainRamp)
    ensures
        r == spec_ramp_step(g),
{
    if g.frames == 0 {
        g
    } else if g.frames == 1 {
        GainRamp { gain: g.target, frames: 0, ..g }
    } else {
        GainRamp { gain: fx_add(g.gain, g.step), frames: g.frames - 1, ..g }
    }
}

/// A ramp that holds `gain` steady.
pub open spec fn spec_flat_ramp(gain: i64) -> GainRamp {
    GainRamp { gain: gain, target: gain, step: 0, frames: 0 }
}

/// An immutable decoded PCM source: one or two channels of Q32.32 samples.
pub struct Asset {
    pub id: String,
    pub sr: u32,
    pub ch: Vec<Vec<i64>>,
}

#[verifier::ext_equal]
pub ghost struct AssetV {
    pub id: Seq<char>,
    pub sr: u32,
    pub ch: Seq<Seq<i64>>,
}

impl View for Asset {
    type V = AssetV;

    open spec fn view(&self) -> AssetV {
        AssetV { id: self.id@, sr: self.sr, ch: self.ch.deep_view() }
    }
}

/// A deferred asset switch: the asset to switch to and the loop
/// configuration it brings along.
pub struct PendingSwitch {
    pub to_asset: String,
    pub cfg: LoopCfg,
}

#[verifier::ext_equal]
pub ghost struct PendingSwitchV {
    pub to_asset: Seq<char>,
    pub cfg: LoopCfg,
}

impl View for PendingSwitch {
    type V = PendingSwitchV;

    open spec fn view(&self) -> PendingSwitchV {
        PendingSwitchV { to_asset: self.to_asset@, cfg: self.cfg }
    }
}

/// A live playback instance bound to one asset at a time.
pub struct Track {
    pub id: String,
    pub bus: String,
    pub asset_id: String,
    /// Playback cursor in source samples, Q32.32.
    pub pos: u64,
    /// Cursor increment per output frame, Q32.32 (asset rate / engine rate).
    pub step: u64,
    /// Linear gain, Q32.32, together with its ramp state; the ramp
    /// advances only while the track renders.
    pub gain: i64,
    pub gain_target: i64,
    pub gain_step: i64,
    pub gain_frames: u64,
    /// Equal-power pan coefficients, Q32.32.
    pub pan_l: i64,
    pub pan_r: i64,
    pub playing: bool,
    pub loop_cfg: LoopCfg,
    /// Sorted, de-duplicated source-sample indices.
    pub markers: Vec<usize>,
    pub pending_switch: Option<PendingSwitch>,
    /// Source-sample index at which the pending switch fires, if marker-bound.
    pub pending_switch_at: Option<usize>,
}

#[verifier::ext_equal]
pub ghost struct TrackV {
    pub id: Seq<char>,
    pub bus: Seq<char>,
    pub asset_id: Seq<char>,
    pub pos: u64,
    pub step: u64,
    pub gain: i64,
    pub gain_target: i64,
    pub gain_step: i64,
    pub gain_frames: u64,
    pub pan_l: i64,
    pub pan_r: i64,
    pub playing: bool,
    pub loop_cfg: LoopCfg,
    pub markers: Seq<usize>,
    pub pending_switch: Option<PendingSwitchV>,
    pub pending_switch_at: Option<usize>,
}

impl View for Track {
    type V = TrackV;

    open spec fn view(&self) -> TrackV {
        TrackV {
            id: self.id@,
            bus: self.bus@,
            asset_id: self.asset_id@,
            pos: self.pos,
            step: self.step,
            gain: self.gain,
            gain_target: self.gain_target,
            gain_step: self.gain_step,
            gain_frames: self.gain_frames,
            pan_l: self.pan_l,
            pan_r: self.pan_r,
            playing: self.playing,
            loop_cfg: self.loop_cfg,
            markers: self.markers@,
            pending_switch: match &self.pending_switch {
                Some(p) => Some(p@),
                None => None,
            },
            pending_switch_at: self.pending_switch_at,
        }
    }
}

/// A sidechain gain reducer keyed on one bus and applied to another.
/// All levels are Q32.32; `env` and `gr` persist between blocks.
pub struct Ducker {
    pub target_bus: String,
    pub key_bus: String,
    /// Threshold in dB, Q32.32.
    pub threshold_db: i64,
    /// Threshold as a linear level, Q32.32.
    pub threshold_lin: i64,
    /// 1 - 1/ratio, Q32.32.
    pub ratio_comp: i64,
    /// One-pole attack and release coefficients, Q32.32 in [0, 1].
    pub attack: i64,
    pub release: i64,
    /// Maximum attenuation in dB, Q32.32, non-negative.
    pub max_atten_db: i64,
    /// Make-up gain as a linear factor, Q32.32.
    pub makeup_lin: i64,
    /// Envelope follower state.
    pub env: i64,
    /// Current gain-reduction factor.
    pub gr: i64,
}

#[verifier::ext_equal]
pub ghost struct DuckerV {
    pub target_bus: Seq<char>,
    pub key_bus: Seq<char>,
    pub threshold_db: i64,
    pub threshold_lin: i64,
    pub ratio_comp: i64,
    pub attack: i64,
    pub release: i64,
    pub max_atten_db: i64,
    pub makeup_lin: i64,
    pub env: i64,
    pub gr: i64,
}

impl View for Ducker {
    type V = DuckerV;

    open spec fn view(&self) -> DuckerV {
        DuckerV {
            target_bus: self.target_bus@,
            key_bus: self.key_bus@,
            threshold_db: self.threshold_db,
            threshold_lin: self.threshold_lin,
            ratio_comp: self.ratio_comp,
            attack: self.attack,
            release: self.release,
            max_atten_db: self.max_atten_db,
            makeup_lin: self.makeup_lin,
            env: self.env,
            gr: self.gr,
        }
    }
}

/// The gain of one named bus, with its ramp; the ramp advances once per
/// output frame of every block, whether or not the bus carries audio.
pub struct BusGain {
    pub name: String,
    pub ramp: GainRamp,
}

#[verifier::ext_equal]
pub ghost struct BusGainV {
    pub name: Seq<char>,
    pub ramp: GainRamp,
}

impl View for BusGain {
    type V = BusGainV;

    open spec fn view(&self) -> BusGainV {
        BusGainV { name: self.name@, ramp: self.ramp }
    }
}

/// The mixing engine: owns assets, tracks, duckers and bus gains.
pub struct Engine {
    pub sr: u32,
    pub assets: Vec<Asset>,
    pub tracks: Vec<Track>,
    pub duckers: Vec<Ducker>,
    pub bus_gains: Vec<BusGain>,
}

#[verifier::ext_equal]
pub ghost struct EngineV {
    pub sr: u32,
    pub assets: Seq<AssetV>,
    pub tracks: Seq<TrackV>,
    pub duckers: Seq<DuckerV>,
    pub bus_gains: Seq<BusGainV>,
}

impl View for Engine {
    type V = EngineV;

    open spec fn view(&self) -> EngineV {
        EngineV {
            sr: self.sr,
            assets: self.assets@.map_values(|a: Asset| a@),
            tracks: self.tracks@.map_values(|t: Track| t@),
            duckers: self.duckers@.map_values(|d: Ducker| d@),
            bus_gains: self.bus_gains@.map_values(|g: BusGain| g@),
        }
    }
}

impl EngineV {
    /// Well-formedness: the engine rate is positive, every registered asset
    /// has at least one channel, and no two duckers share a target bus.
    pub open spec fn wf(self) -> bool {
        &&& 1 <= self.sr
        &&& forall|i: int|
            0 <= i < self.assets.len() ==> (#[trigger] self.assets[i]).ch.len() >= 1
        &&& forall|i: int, j: int|
            0 <= i < j < self.duckers.len() ==> (#[trigger] self.duckers[i]).target_bus != (
            #[trigger] self.duckers[j]).target_bus
    }
}

/// Index of the first sequence in `ids` equal to `id`, or -1.
pub open spec fn first_match(ids: Seq<Seq<char>>, id: Seq<char>) -> int
    decreases ids.len(),
{
    if ids.len() == 0 {
        -1
    } else if ids[0] == id {
        0
    } else {
        let r = first_match(ids.drop_first(), id);
        if r == -1 {
            -1
        } else {
            r + 1
        }
    }
}

pub proof fn lemma_first_match(ids: Seq<Seq<char>>, id: Seq<char>)
    ensures
        first_match(ids, id) == -1 || 0 <= first_match(ids, id) < ids.len(),
        first_match(ids, id) == -1 ==> forall|j: int| 0 <= j < ids.len() ==> ids[j] != id,
        first_match(ids, id) >= 0 ==> {
            &&& first_match(ids, id) < ids.len()
            &&& ids[first_match(ids, id)] == id
            &&& forall|j: int| 0 <= j < first_match(ids, id) ==> ids[j] != id
        },
    decreases ids.len(),
{
    if ids.len() > 0 && ids[0] != id {
        let rest = ids.drop_first();
        lemma_first_match(rest, id);
        if first_match(ids, id) == -1 {
            assert(first_match(rest, id) == -1);
            assert forall|j: int| 0 <= j < ids.len() implies ids[j] != id by {
                if j > 0 {
                    assert(rest[j - 1] == ids[j]);
                    assert(rest[j - 1] != id);
                }
            }
        } else {
            let r = first_match(rest, id);
            assert(first_match(ids, id) == r + 1);
            assert(ids[r + 1] == rest[r]);
            assert forall|j: int| 0 <= j < first_match(ids, id) implies ids[j] != id by {
                if j > 0 {
                    assert(rest[j - 1] == ids[j]);
                    assert(rest[j - 1] != id);
                }
            }
        }
    }
}

pub open spec fn asset_ids(assets: Seq<AssetV>) -> Seq<Seq<char>> {
    assets.map_values(|a: AssetV| a.id)
}

pub open spec fn track_ids(tracks: Seq<TrackV>) -> Seq<Seq<char>> {
    tracks.map_values(|t: TrackV| t.id)
}

pub open spec fn ducker_targets(duckers: Seq<DuckerV>) -> Seq<Seq<char>> {
    duckers.map_values(|d: DuckerV| d.target_bus)
}

pub(crate) fn find_asset(assets: &Vec<Asset>, id: &str) -> (r: Option<usize>)
    ensures
        match r {
            Some(i) => i < assets@.len() && i == first_match(
                asset_ids(assets@.map_values(|a: Asset| a@)),
                id@,
            ),
            None => first_match(asset_ids(assets@.map_values(|a: Asset| a@)), id@) == -1,
        },
{
    let ghost ids = asset_ids(assets@.map_values(|a: Asset| a@));
    let n = assets.len();
    let mut i: usize = 0;
    while i < n
        invariant
            n == assets@.len(),
            i <= n,
            ids == asset_ids(assets@.map_values(|a: Asset| a@)),
            forall|j: int| 0 <= j < i ==> ids[j] != id@,
        decreases n - i,
    {
        if str_eq(assets[i].id.as_str(), id) {
            proof {
                lemma_first_match(ids, id@);
                assert(assets@.map_values(|a: Asset| a@)[i as int].id == id@);
                assert(ids[i as int] == id@);
                let fm = first_match(ids, id@);
                if fm == -1 {
                    assert(ids[i as int] != id@);
                } else if fm < i {
                    assert(ids[fm] == id@);
                    assert(ids[fm] != id@);
                } else if fm > i {
                    assert(ids[i as int] != id@);
                }
            }
            return Some(i);
        }
        i = i + 1;
    }
    proof {
        lemma_first_match(ids, id@);
    }
    None
}

fn find_track(tracks: &Vec<Track>, id: &str) -> (r: Option<usize>)
    ensures
        match r {
            Some(i) => i < tracks@.len() && i == first_match(
                track_ids(tracks@.map_values(|t: Track| t@)),
                id@,
            ),
            None => first_match(track_ids(tracks@.map_values(|t: Track| t@)), id@) == -1,
        },
{
    let ghost ids = track_ids(tracks@.map_values(|t: Track| t@));
    let n = tracks.len();
    let mut i: usize = 0;
    while i < n
        invariant
            n == tracks@.len(),
            i <= n,
            ids == track_ids(tracks@.map_values(|t: Track| t@)),
            forall|j: int| 0 <= j < i ==> ids[j] != id@,
        decreases n - i,
    {
        if str_eq(tracks[i].id.as_str(), id) {
            proof {
                lemma_first_match(ids, id@);
                assert(tracks@.map_values(|t: Track| t@)[i as int].id == id@);
                assert(ids[i as int] == id@);
                let fm = first_match(ids, id@);
                if fm == -1 {
                    assert(ids[i as int] != id@);
                } else if fm < i {
                    assert(ids[fm] == id@);
                    assert(ids[fm] != id@);
                } else if fm > i {
                    assert(ids[i as int] != id@);
                }
            }
            return Some(i);
        }
        i = i + 1;
    }
    proof {
        lemma_first_match(ids, id@);
    }
    None
}

/// The loop mode a string names: "seamless", "xfade", anything else plays once.
pub open spec fn spec_loop_mode(mode: Seq<char>) -> LoopMode {
    if mode == "seamless"@ {
        LoopMode::Seamless
    } else if mode == "xfade"@ {
        LoopMode::Xfade
    } else {
        LoopMode::Once
    }
}

pub open spec fn spec_usize_sat(x: int) -> usize {
    if x > usize::MAX as int {
        usize::MAX
    } else {
        x as usize
    }
}

fn u64_to_usize_sat(v: u64) -> (r: usize)
    ensures
        r == spec_usize_sat(v as int),
{
    if v > usize::MAX as u64 {
        usize::MAX
    } else {
        v as usize
    }
}

/// The loop configuration built from the wire arguments: a negative `end`
/// means "to the end of the asset", and the crossfade length is converted
/// from milliseconds to source samples at the asset rate `sr`.
pub open spec fn spec_loop_cfg(mode: Seq<char>, start: u32, end: i32, xfade_ms: u32, sr: u32) -> LoopCfg {
    let m = spec_loop_mode(mode);
    LoopCfg {
        mode: m,
        start: start as usize,
        end: if end >= 0 {
            Some(end as usize)
        } else {
            None
        },
        xfade: if m == LoopMode::Xfade {
            spec_usize_sat(xfade_ms * sr / 1000)
        } else {
            0
        },
    }
}

pub fn loop_cfg(mode: &str, start: u32, end: i32, xfade_ms: u32, sr: u32) -> (c: LoopCfg)
    ensures
        c == spec_loop_cfg(mode@, start, end, xfade_ms, sr),
{
    let m = if str_eq(mode, "seamless") {
        LoopMode::Seamless
    } else if str_eq(mode, "xfade") {
        LoopMode::Xfade
    } else {
        LoopMode::Once
    };
    let xf: usize = if m == LoopMode::Xfade {
        proof {
            assert((xfade_ms as int) * (sr as int) < 0x1_0000_0000_0000_0000int)
                by (nonlinear_arith)
                requires
                    xfade_ms <= 0xFFFF_FFFFu32,
                    sr <= 0xFFFF_FFFFu32,
            ;
        }
        u64_to_usize_sat((xfade_ms as u64) * (sr as u64) / 1000)
    } else {
        0
    };
    LoopCfg {
        mode: m,
        start: start as usize,
        end: if end >= 0 {
            Some(end as usize)
        } else {
            None
        },
        xfade: xf,
    }
}

/// Equal-power pan coefficients: the pan position is clamped to
/// [-1, 1], the angle is `(pan + 1) * pi/4`, and the coefficients are
/// `(cos(angle), sin(angle))`, with the sine taken as `cos(pi/2 - angle)`.
pub open spec fn spec_pan_coeffs(pan: i64) -> (i64, i64) {
    let p = if pan > FX_ONE {
        FX_ONE
    } else if pan < -FX_ONE {
        (-FX_ONE) as i64
    } else {
        pan
    };
    let angle = spec_fx_mul(spec_fx_add(p, FX_ONE), QUARTER_PI);
    (spec_fx_cos(angle), spec_fx_cos(spec_fx_sub(HALF_PI, angle)))
}

pub fn pan_coeffs(pan: i64) -> (c: (i64, i64))
    ensures
        c == spec_pan_coeffs(pan),
{
    let p = if pan > FX_ONE {
        FX_ONE
    } else if pan < -FX_ONE {
        -FX_ONE
    } else {
        pan
    };
    let angle = fx_mul(fx_add(p, FX_ONE), QUARTER_PI);
    (fx_cos(angle), fx_cos(fx_sub(HALF_PI, angle)))
}

/// The track made by `engine_create_track_bus`: cursor at zero, not playing,
/// no loop, no markers, gain and pan precomputed, resampling step captured
/// from the asset and engine rates.
pub open spec fn spec_new_track(
    id: Seq<char>,
    bus: Seq<char>,
    asset_id: Seq<char>,
    pan: i64,
    gain_db: i32,
    asset_sr: u32,
    engine_sr: u32,
) -> TrackV {
    let pc = spec_pan_coeffs(pan);
    TrackV {
        id: id,
        bus: bus,
        asset_id: asset_id,
        pos: 0,
        step: ((asset_sr * 0x1_0000_0000) / engine_sr as int) as u64,
        gain: spec_pow10_db(gain_db as int),
        gain_target: spec_pow10_db(gain_db as int),
        gain_step: 0,
        gain_frames: 0,
        pan_l: pc.0,
        pan_r: pc.1,
        playing: false,
        loop_cfg: LoopCfg::default_spec(),
        markers: Seq::empty(),
        pending_switch: None,
        pending_switch_at: None,
    }
}

/// Registration replaces an asset of the same id and appends a new one.
pub open spec fn spec_register_asset(e: EngineV, id: Seq<char>, sr: u32, ch: Seq<Seq<i64>>) -> (
    EngineV,
    bool,
) {
    if ch.len() == 0 {
        (e, false)
    } else {
        let a = AssetV { id: id, sr: sr, ch: ch };
        let i = first_match(asset_ids(e.assets), id);
        if i >= 0 {
            (EngineV { assets: e.assets.update(i, a), ..e }, true)
        } else {
            (EngineV { assets: e.assets.push(a), ..e }, true)
        }
    }
}

/// Track creation fails on an unknown asset and otherwise installs a fresh
/// track, replacing any track of the same id.
pub open spec fn spec_create_track(
    e: EngineV,
    track_id: Seq<char>,
    bus: Seq<char>,
    asset_id: Seq<char>,
    pan: i64,
    gain_db: i32,
) -> (EngineV, bool) {
    let ai = first_match(asset_ids(e.assets), asset_id);
    if ai < 0 {
        (e, false)
    } else {
        let t = spec_new_track(track_id, bus, asset_id, pan, gain_db, e.assets[ai].sr, e.sr);
        let ti = first_match(track_ids(e.tracks), track_id);
        if ti >= 0 {
            (EngineV { tracks: e.tracks.update(ti, t), ..e }, true)
        } else {
            (EngineV { tracks: e.tracks.push(t), ..e }, true)
        }
    }
}

pub open spec fn spec_u64_sat(x: int) -> u64 {
    if x > u64::MAX as int {
        u64::MAX
    } else if x < 0 {
        0
    } else {
        x as u64
    }
}

/// `engine_schedule_play`: cursor to the offset converted at the current
/// asset's rate, fresh loop configuration, playing set.
pub open spec fn spec_schedule_play(
    e: EngineV,
    track_id: Seq<char>,
    offset_samples: u32,
    mode: Seq<char>,
    start: u32,
    end: i32,
    xfade_ms: u32,
) -> (EngineV, bool) {
    let ti = first_match(track_ids(e.tracks), track_id);
    if ti < 0 {
        (e, false)
    } else {
        let t = e.tracks[ti];
        let ai = first_match(asset_ids(e.assets), t.asset_id);
        if ai < 0 {
            (e, false)
        } else {
            let asr = e.assets[ai].sr;
            let ratio = (asr * 0x1_0000_0000) / e.sr as int;
            let t2 = TrackV {
                pos: spec_u64_sat(offset_samples * ratio),
                loop_cfg: spec_loop_cfg(mode, start, end, xfade_ms, asr),
                playing: true,
                ..t
            };
            (EngineV { tracks: e.tracks.update(ti, t2), ..e }, true)
        }
    }
}

/// `engine_set_loop`: only the loop configuration changes.
pub open spec fn spec_set_loop(
    e: EngineV,
    track_id: Seq<char>,
    mode: Seq<char>,
    start: u32,
    end: i32,
    xfade_ms: u32,
) -> (EngineV, bool) {
    let ti = first_match(track_ids(e.tracks), track_id);
    if ti < 0 {
        (e, false)
    } else {
        let t = e.tracks[ti];
        let ai = first_match(asset_ids(e.assets), t.asset_id);
        if ai < 0 {
            (e, false)
        } else {
            let asr = e.assets[ai].sr;
            let t2 = TrackV { loop_cfg: spec_loop_cfg(mode, start, end, xfade_ms, asr), ..t };
            (EngineV { tracks: e.tracks.update(ti, t2), ..e }, true)
        }
    }
}

/// Index of the first element of `ms` strictly above `b`, or -1.
pub open spec fn first_above(ms: Seq<usize>, b: u64) -> int
    decreases ms.len(),
{
    if ms.len() == 0 {
        -1
    } else if ms[0] > b {
        0
    } else {
        let r = first_above(ms.drop_first(), b);
        if r == -1 {
            -1
        } else {
            r + 1
        }
    }
}

pub proof fn lemma_first_above(ms: Seq<usize>, b: u64)
    ensures
        first_above(ms, b) == -1 || 0 <= first_above(ms, b) < ms.len(),
        first_above(ms, b) == -1 ==> forall|j: int| 0 <= j < ms.len() ==> ms[j] <= b,
        first_above(ms, b) >= 0 ==> {
            &&& ms[first_above(ms, b)] > b
            &&& forall|j: int| 0 <= j < first_above(ms, b) ==> ms[j] <= b
        },
    decreases ms.len(),
{
    if ms.len() > 0 && !(ms[0] > b) {
        let rest = ms.drop_first();
        lemma_first_above(rest, b);
        if first_above(ms, b) == -1 {
            assert forall|j: int| 0 <= j < ms.len() implies ms[j] <= b by {
                if j > 0 {
                    assert(rest[j - 1] == ms[j]);
                }
            }
        } else {
            let r = first_above(rest, b);
            assert(ms[r + 1] == rest[r]);
            assert forall|j: int| 0 <= j < first_above(ms, b) implies ms[j] <= b by {
                if j > 0 {
                    assert(rest[j - 1] == ms[j]);
                }
            }
        }
    }
}

/// `engine_transition`: "now" switches at once; "loopEnd" stores a pending
/// switch for the next loop boundary; "nextMarker" additionally binds it to
/// the first marker past the current cursor, or degrades to the loop
/// boundary when none is left.  Any other word leaves the track unchanged.
pub open spec fn spec_transition(
    e: EngineV,
    track_id: Seq<char>,
    at: Seq<char>,
    to_asset_id: Seq<char>,
    mode: Seq<char>,
    start: u32,
    end: i32,
    xfade_ms: u32,
) -> (EngineV, bool) {
    let ai = first_match(asset_ids(e.assets), to_asset_id);
    if ai < 0 {
        (e, false)
    } else {
        let cfg = spec_loop_cfg(mode, start, end, xfade_ms, e.assets[ai].sr);
        let ti = first_match(track_ids(e.tracks), track_id);
        if ti < 0 {
            (e, false)
        } else {
            let t = e.tracks[ti];
            let t2 = if at == "now"@ {
                TrackV {
                    asset_id: to_asset_id,
                    loop_cfg: cfg,
                    pos: spec_u64_sat(cfg.start * 0x1_0000_0000),
                    pending_switch: None,
                    pending_switch_at: None,
                    ..t
                }
            } else if at == "loopEnd"@ {
                TrackV {
                    pending_switch: Some(PendingSwitchV { to_asset: to_asset_id, cfg: cfg }),
                    pending_switch_at: None,
                    ..t
                }
            } else if at == "nextMarker"@ {
                let mi = first_above(t.markers, (t.pos / 0x1_0000_0000) as u64);
                TrackV {
                    pending_switch: Some(PendingSwitchV { to_asset: to_asset_id, cfg: cfg }),
                    pending_switch_at: if mi >= 0 {
                        Some(t.markers[mi])
                    } else {
                        None
                    },
                    ..t
                }
            } else {
                t
            };
            (EngineV { tracks: e.tracks.update(ti, t2), ..e }, true)
        }
    }
}

/// One-pole smoothing coefficient `1 - exp(-1 / (sr * t))` for a time given
/// in milliseconds; a zero time gives 1 (no smoothing).
pub open spec fn spec_onepole(sr: u32, ms: u32) -> i64 {
    if sr * ms == 0 {
        0x1_0000_0000
    } else {
        let x = 1000int * 0x1_0000_0000int / (sr as int * ms as int);
        spec_fx_sub(0x1_0000_0000, spec_fx_exp2_neg(spec_fx_mul(x as i64, LOG2_E)))
    }
}

/// The ducker `engine_set_ducker` installs: thresholds and make-up gain
/// from whole decibels, the ratio clamped to at least 1, the maximum
/// attenuation clamped to non-negative, envelope zero and unity gain
/// reduction.
pub open spec fn spec_new_ducker(
    target_bus: Seq<char>,
    key_bus: Seq<char>,
    threshold_db: i32,
    ratio: u32,
    attack_ms: u32,
    release_ms: u32,
    max_atten_db: i32,
    makeup_db: i32,
    sr: u32,
) -> DuckerV {
    DuckerV {
        target_bus: target_bus,
        key_bus: key_bus,
        threshold_db: (threshold_db * 0x1_0000_0000) as i64,
        threshold_lin: spec_pow10_db(threshold_db as int),
        ratio_comp: (0x1_0000_0000 - 0x1_0000_0000int / (if ratio < 1 {
            1int
        } else {
            ratio as int
        })) as i64,
        attack: spec_onepole(sr, attack_ms),
        release: spec_onepole(sr, release_ms),
        max_atten_db: ((if max_atten_db < 0 {
            0int
        } else {
            max_atten_db as int
        }) * 0x1_0000_0000) as i64,
        makeup_lin: spec_pow10_db(makeup_db as int),
        env: 0,
        gr: 0x1_0000_0000,
    }
}

/// `engine_create_bus` gives the bus a steady starting gain, replacing any
/// earlier gain entry of the same name.
pub open spec fn spec_create_bus(e: EngineV, bus_id: Seq<char>, gain_db: i32) -> EngineV {
    let entry = BusGainV { name: bus_id, ramp: spec_flat_ramp(spec_pow10_db(gain_db as int)) };
    let gi = first_match(bus_gain_names(e.bus_gains), bus_id);
    if gi >= 0 {
        EngineV { bus_gains: e.bus_gains.update(gi, entry), ..e }
    } else {
        EngineV { bus_gains: e.bus_gains.push(entry), ..e }
    }
}

pub open spec fn bus_gain_names(gains: Seq<BusGainV>) -> Seq<Seq<char>> {
    gains.map_values(|g: BusGainV| g.name)
}

/// The ramp `engine_set_gain` installs: from the current gain to
/// 10^(gain_db/20), linearly in amplitude over `ramp_ms` milliseconds of
/// output (at least one frame), the last frame landing on the target.
pub open spec fn spec_gain_ramp(current: i64, gain_db: i32, ramp_ms: u32, sr: u32) -> GainRamp {
    let target = spec_pow10_db(gain_db as int);
    let frames = spec_ramp_frame_count(ramp_ms, sr);
    GainRamp {
        gain: current,
        target: target,
        step: crate::fx::spec_fx_div_int(spec_fx_sub(target, current), frames),
        frames: frames as u64,
    }
}

/// `ramp_ms * sr / 1000` frames, clamped into [1, u32::MAX].
pub open spec fn spec_ramp_frame_count(ramp_ms: u32, sr: u32) -> u32 {
    let f = ramp_ms * sr / 1000;
    if f < 1 {
        1u32
    } else if f > u32::MAX {
        u32::MAX
    } else {
        f as u32
    }
}

/// `engine_set_gain` on a track: the track keeps playing, only its gain
/// ramp changes.
pub open spec fn spec_set_track_gain(e: EngineV, id: Seq<char>, gain_db: i32, ramp_ms: u32) -> (
    EngineV,
    bool,
) {
    let ti = first_match(track_ids(e.tracks), id);
    if ti < 0 {
        (e, false)
    } else {
        let t = e.tracks[ti];
        let g = spec_gain_ramp(t.gain, gain_db, ramp_ms, e.sr);
        let t2 = TrackV {
            gain_target: g.target,
            gain_step: g.step,
            gain_frames: g.frames,
            ..t
        };
        (EngineV { tracks: e.tracks.update(ti, t2), ..e }, true)
    }
}

/// `engine_set_gain` on a bus: an unknown bus gains an entry at unity
/// first, then the ramp is installed.
pub open spec fn spec_set_bus_gain(e: EngineV, id: Seq<char>, gain_db: i32, ramp_ms: u32) -> (
    EngineV,
    bool,
) {
    let gi = first_match(bus_gain_names(e.bus_gains), id);
    if gi >= 0 {
        let entry = BusGainV {
            name: id,
            ramp: spec_gain_ramp(e.bus_gains[gi].ramp.gain, gain_db, ramp_ms, e.sr),
        };
        (EngineV { bus_gains: e.bus_gains.update(gi, entry), ..e }, true)
    } else {
        let entry = BusGainV { name: id, ramp: spec_gain_ramp(0x1_0000_0000, gain_db, ramp_ms, e.sr) };
        (EngineV { bus_gains: e.bus_gains.push(entry), ..e }, true)
    }
}

/// Installing a ducker removes the one previously aimed at the same target
/// bus, then appends the new one.
pub open spec fn spec_set_ducker(e: EngineV, d: DuckerV) -> EngineV {
    let di = first_match(ducker_targets(e.duckers), d.target_bus);
    let kept = if di >= 0 {
        e.duckers.remove(di)
    } else {
        e.duckers
    };
    EngineV { duckers: kept.push(d), ..e }
}

fn find_ducker(duckers: &Vec<Ducker>, target: &str) -> (r: Option<usize>)
    ensures
        match r {
            Some(i) => i < duckers@.len() && i == first_match(
                ducker_targets(duckers@.map_values(|d: Ducker| d@)),
                target@,
            ),
            None => first_match(ducker_targets(duckers@.map_values(|d: Ducker| d@)), target@)
                == -1,
        },
{
    let ghost ids = ducker_targets(duckers@.map_values(|d: Ducker| d@));
    let n = duckers.len();
    let mut i: usize = 0;
    while i < n
        invariant
            n == duckers@.len(),
            i <= n,
            ids == ducker_targets(duckers@.map_values(|d: Ducker| d@)),
            forall|j: int| 0 <= j < i ==> ids[j] != target@,
        decreases n - i,
    {
        if str_eq(duckers[i].target_bus.as_str(), target) {
            proof {
                lemma_first_match(ids, target@);
                assert(duckers@.map_values(|d: Ducker| d@)[i as int].target_bus == target@);
                assert(ids[i as int] == target@);
                let fm = first_match(ids, target@);
                if fm == -1 {
                    assert(ids[i as int] != target@);
                } else if fm < i {
                    assert(ids[fm] == target@);
                    assert(ids[fm] != target@);
                } else if fm > i {
                    assert(ids[i as int] != target@);
                }
            }
            return Some(i);
        }
        i = i + 1;
    }
    proof {
        lemma_first_match(ids, target@);
    }
    None
}

fn find_bus_gain(gains: &Vec<BusGain>, name: &str) -> (r: Option<usize>)
    ensures
        match r {
            Some(i) => i < gains@.len() && i == first_match(
                bus_gain_names(gains@.map_values(|g: BusGain| g@)),
                name@,
            ),
            None => first_match(bus_gain_names(gains@.map_values(|g: BusGain| g@)), name@) == -1,
        },
{
    let ghost ids = bus_gain_names(gains@.map_values(|g: BusGain| g@));
    let n = gains.len();
    let mut i: usize = 0;
    while i < n
        invariant
            n == gains@.len(),
            i <= n,
            ids == bus_gain_names(gains@.map_values(|g: BusGain| g@)),
            forall|j: int| 0 <= j < i ==> ids[j] != name@,
        decreases n - i,
    {
        if str_eq(gains[i].name.as_str(), name) {
            proof {
                lemma_first_match(ids, name@);
                assert(gains@.map_values(|g: BusGain| g@)[i as int].name == name@);
                assert(ids[i as int] == name@);
                let fm = first_match(ids, name@);
                if fm == -1 {
                    assert(ids[i as int] != name@);
                } else if fm < i {
                    assert(ids[fm] == name@);
                    assert(ids[fm] != name@);
                } else if fm > i {
                    assert(ids[i as int] != name@);
                }
            }
            return Some(i);
        }
        i = i + 1;
    }
    proof {
        lemma_first_match(ids, name@);
    }
    None
}

fn gain_ramp(current: i64, gain_db: i32, ramp_ms: u32, sr: u32) -> (g: GainRamp)
    ensures
        g == spec_gain_ramp(current, gain_db, ramp_ms, sr),
{
    proof {
        assert((ramp_ms as int) * (sr as int) < 0x1_0000_0000_0000_0000int) by (nonlinear_arith)
            requires
                ramp_ms <= 0xFFFF_FFFFu32,
                sr <= 0xFFFF_FFFFu32,
        ;
    }
    let f64v: u64 = (ramp_ms as u64) * (sr as u64) / 1000;
    let frames: u32 = if f64v < 1 {
        1
    } else if f64v > u32::MAX as u64 {
        u32::MAX
    } else {
        f64v as u32
    };
    let target = pow10_db(gain_db);
    GainRamp {
        gain: current,
        target: target,
        step: crate::fx::fx_div_int(fx_sub(target, current), frames),
        frames: frames as u64,
    }
}

fn onepole_coeff(sr: u32, ms: u32) -> (c: i64)
    ensures
        c == spec_onepole(sr, ms),
{
    proof {
        assert((sr as int) * (ms as int) < 0x1_0000_0000_0000_0000int) by (nonlinear_arith)
            requires
                sr <= 0xFFFF_FFFFu32,
                ms <= 0xFFFF_FFFFu32,
        ;
    }
    let prod: u64 = (sr as u64) * (ms as u64);
    if prod == 0 {
        FX_ONE
    } else {
        let x: u64 = (1000u64 * 0x1_0000_0000u64) / prod;
        let z: i64 = fx_mul(x as i64, LOG2_E);
        proof {
            vstd::arithmetic::div_mod::lemma_div_pos_is_pos((x as int) * (LOG2_E as int), 0x1_0000_0000int);
            assert((x as int) * (LOG2_E as int) >= 0) by (nonlinear_arith)
                requires
                    x >= 0,
            ;
        }
        fx_sub(FX_ONE, fx_exp2_neg(z))
    }
}

/// No element is larger than a later one, and no two are equal.
pub open spec fn strictly_sorted(s: Seq<usize>) -> bool {
    forall|i: int, j: int| 0 <= i < j < s.len() ==> s[i] < s[j]
}

/// Inserts `x` into a strictly sorted vector, keeping it strictly sorted;
/// a value already present is left alone.
fn sorted_insert_unique(out: &mut Vec<usize>, x: usize)
    requires
        strictly_sorted(old(out)@),
    ensures
        strictly_sorted(final(out)@),
        forall|y: usize| final(out)@.contains(y) <==> (old(out)@.contains(y) || y == x),
{
    let n = out.len();
    let mut p: usize = 0;
    while p < n && out[p] < x
        invariant
            p <= n,
            n == out@.len(),
            strictly_sorted(out@),
            out@ == old(out)@,
            forall|j: int| 0 <= j < p ==> out@[j] < x,
        decreases n - p,
    {
        p = p + 1;
    }
    if p < n && out[p] == x {
        proof {
            assert(out@[p as int] == x);
            assert(out@.contains(x));
        }
        return ;
    }
    out.insert(p, x);
    proof {
        let s0 = old(out)@;
        let s1 = out@;
        assert(s1 == s0.insert(p as int, x));
        assert forall|i: int| 0 <= i < s1.len() implies
            (if i < p {
                s1[i] == s0[i]
            } else if i == p {
                s1[i] == x
            } else {
                s1[i] == s0[i - 1]
            }) by {}
        assert forall|i: int, j: int| 0 <= i < j < s1.len() implies s1[i] < s1[j] by {
            if j < p {
            } else if i < p && j == p {
                assert(s1[i] == s0[i] && s0[i] < x);
            } else if i < p && j > p {
                assert(s1[i] < x);
                assert(s0[j - 1] >= x);
            } else if i == p {
                assert(s1[j] == s0[j - 1]);
                assert(s0[j - 1] >= x);
                if s0[j - 1] == x {
                    assert(false);
                }
            } else {
            }
        }
        assert forall|y: usize| s1.contains(y) implies (s0.contains(y) || y == x) by {
            let k = choose|k: int| 0 <= k < s1.len() && s1[k] == y;
            if k < p {
                assert(s0[k] == y);
            } else if k > p {
                assert(s0[k - 1] == y);
            }
        }
        assert forall|y: usize| s0.contains(y) || y == x implies s1.contains(y) by {
            if s0.contains(y) {
                let k = choose|k: int| 0 <= k < s0.len() && s0[k] == y;
                if k < p {
                    assert(s1[k] == y);
                } else {
                    assert(s1[k + 1] == y);
                }
            } else {
                assert(s1[p as int] == y);
            }
        }
    }
}

impl Engine {
    /// A fresh engine at the default 48 kHz output rate, with nothing
    /// registered.
    pub fn new() -> (e: Engine)
        ensures
            e@.wf(),
            e@.sr == 48000,
            e@.assets =~= Seq::<AssetV>::empty(),
            e@.tracks =~= Seq::<TrackV>::empty(),
            e@.duckers =~= Seq::<DuckerV>::empty(),
            e@.bus_gains =~= Seq::<BusGainV>::empty(),
    {
        Engine {
            sr: 48000,
            assets: Vec::new(),
            tracks: Vec::new(),
            duckers: Vec::new(),
            bus_gains: Vec::new(),
        }
    }

    /// Sets the engine output rate; a zero rate falls back to 48000.
    pub fn engine_init(&mut self, sample_rate: u32)
        ensures
            final(self)@ == (EngineV {
                sr: if sample_rate >= 1 {
                    sample_rate
                } else {
                    48000
                },
                ..old(self)@
            }),
            old(self)@.wf() ==> final(self)@.wf(),
    {
        self.sr = if sample_rate >= 1 {
            sample_rate
        } else {
            48000
        };
    }

    /// Stores a decoded asset under `id`, replacing any previous asset of
    /// that id; fails exactly when `channels` is empty.
    pub fn engine_register_asset(&mut self, id: &str, sample_rate: u32, channels: Vec<Vec<i64>>)
        -> (ok: bool)
        ensures
            (final(self)@, ok) == spec_register_asset(
                old(self)@,
                id@,
                sample_rate,
                channels.deep_view(),
            ),
            old(self)@.wf() ==> final(self)@.wf(),
    {
        let ghost chv = channels.deep_view();
        proof {
            assert(chv.len() == channels@.len());
        }
        if channels.len() == 0 {
            return false;
        }
        let ghost av = AssetV { id: id@, sr: sample_rate, ch: chv };
        let a = Asset { id: id.to_owned(), sr: sample_rate, ch: channels };
        proof {
            assert(a@ =~= av);
        }
        match find_asset(&self.assets, id) {
            Some(i) => {
                self.assets[i] = a;
                proof {
                    assert(self@.assets =~= old(self)@.assets.update(
                        first_match(asset_ids(old(self)@.assets), id@),
                        av,
                    ));
                    assert(self@ =~= spec_register_asset(old(self)@, id@, sample_rate, chv).0);
                }
            },
            None => {
                self.assets.push(a);
                proof {
                    assert(self@.assets =~= old(self)@.assets.push(av));
                    assert(self@ =~= spec_register_asset(old(self)@, id@, sample_rate, chv).0);
                }
            },
        }
        true
    }

    /// Creates a track routed to an explicit bus; fails exactly when the
    /// asset is unknown.  A track of the same id is replaced.
    pub fn engine_create_track_bus(
        &mut self,
        track_id: &str,
        bus: &str,
        asset_id: &str,
        pan: i64,
        gain_db: i32,
    ) -> (ok: bool)
        requires
            old(self)@.wf(),
        ensures
            (final(self)@, ok) == spec_create_track(
                old(self)@,
                track_id@,
                bus@,
                asset_id@,
                pan,
                gain_db,
            ),
            final(self)@.wf(),
    {
        let ai = match find_asset(&self.assets, asset_id) {
            Some(i) => i,
            None => {
                return false;
            },
        };
        let asset_sr: u32 = self.assets[ai].sr;
        let step: u64 = ((asset_sr as u64) * 0x1_0000_0000u64) / (self.sr as u64);
        let pc = pan_coeffs(pan);
        let t = Track {
            id: track_id.to_owned(),
            bus: bus.to_owned(),
            asset_id: asset_id.to_owned(),
            pos: 0,
            step: step,
            gain: pow10_db(gain_db),
            gain_target: pow10_db(gain_db),
            gain_step: 0,
            gain_frames: 0,
            pan_l: pc.0,
            pan_r: pc.1,
            playing: false,
            loop_cfg: LoopCfg::default_exec(),
            markers: Vec::new(),
            pending_switch: None,
            pending_switch_at: None,
        };
        let ghost tv = spec_new_track(track_id@, bus@, asset_id@, pan, gain_db, asset_sr, self.sr);
        proof {
            assert(t@ =~= tv);
        }
        match find_track(&self.tracks, track_id) {
            Some(ti) => {
                self.tracks[ti] = t;
                proof {
                    assert(self@.tracks =~= old(self)@.tracks.update(
                        first_match(track_ids(old(self)@.tracks), track_id@),
                        tv,
                    ));
                    assert(self@ =~= spec_create_track(
                        old(self)@,
                        track_id@,
                        bus@,
                        asset_id@,
                        pan,
                        gain_db,
                    ).0);
                }
            },
            None => {
                self.tracks.push(t);
                proof {
                    assert(self@.tracks =~= old(self)@.tracks.push(tv));
                    assert(self@ =~= spec_create_track(
                        old(self)@,
                        track_id@,
                        bus@,
                        asset_id@,
                        pan,
                        gain_db,
                    ).0);
                }
            },
        }
        true
    }

    /// Starts playback: the cursor moves to `offset_samples` source samples
    /// (converted at the current asset's rate), the loop configuration is
    /// installed, and the track is marked playing.  Fails exactly when the
    /// track or its bound asset is unknown.
    pub fn engine_schedule_play(
        &mut self,
        track_id: &str,
        offset_samples: u32,
        loop_mode: &str,
        loop_start: u32,
        loop_end: i32,
        xfade_ms: u32,
    ) -> (ok: bool)
        requires
            old(self)@.wf(),
        ensures
            (final(self)@, ok) == spec_schedule_play(
                old(self)@,
                track_id@,
                offset_samples,
                loop_mode@,
                loop_start,
                loop_end,
                xfade_ms,
            ),
            final(self)@.wf(),
    {
        let ti = match find_track(&self.tracks, track_id) {
            Some(i) => i,
            None => {
                return false;
            },
        };
        let ai = match find_asset(&self.assets, self.tracks[ti].asset_id.as_str()) {
            Some(i) => i,
            None => {
                return false;
            },
        };
        let asr: u32 = self.assets[ai].sr;
        let ratio: u64 = ((asr as u64) * 0x1_0000_0000u64) / (self.sr as u64);
        proof {
            assert((offset_samples as int) * (ratio as int) < 0x1_0000_0000_0000_0000_0000_0000int)
                by (nonlinear_arith)
                requires
                    offset_samples <= 0xFFFF_FFFFu32,
                    ratio <= 0xFFFF_FFFF_FFFF_FFFFu64,
            ;
        }
        let p128: u128 = (offset_samples as u128) * (ratio as u128);
        let pos: u64 = if p128 > u64::MAX as u128 {
            u64::MAX
        } else {
            p128 as u64
        };
        let cfg = loop_cfg(loop_mode, loop_start, loop_end, xfade_ms, asr);
        self.tracks[ti].pos = pos;
        self.tracks[ti].loop_cfg = cfg;
        self.tracks[ti].playing = true;
        proof {
            let r = spec_schedule_play(
                old(self)@,
                track_id@,
                offset_samples,
                loop_mode@,
                loop_start,
                loop_end,
                xfade_ms,
            );
            assert(self@.tracks =~= r.0.tracks);
            assert(self@ =~= r.0);
        }
        true
    }

    /// Replaces the loop configuration in place; playback state and cursor
    /// are untouched.  Fails exactly when the track or its bound asset is
    /// unknown.
    pub fn engine_set_loop(
        &mut self,
        track_id: &str,
        loop_mode: &str,
        loop_start: u32,
        loop_end: i32,
        xfade_ms: u32,
    ) -> (ok: bool)
        requires
            old(self)@.wf(),
        ensures
            (final(self)@, ok) == spec_set_loop(
                old(self)@,
                track_id@,
                loop_mode@,
                loop_start,
                loop_end,
                xfade_ms,
            ),
            final(self)@.wf(),
    {
        let ti = match find_track(&self.tracks, track_id) {
            Some(i) => i,
            None => {
                return false;
            },
        };
        let ai = match find_asset(&self.assets, self.tracks[ti].asset_id.as_str()) {
            Some(i) => i,
            None => {
                return false;
            },
        };
        let asr: u32 = self.assets[ai].sr;
        let cfg = loop_cfg(loop_mode, loop_start, loop_end, xfade_ms, asr);
        self.tracks[ti].loop_cfg = cfg;
        proof {
            let r = spec_set_loop(
                old(self)@,
                track_id@,
                loop_mode@,
                loop_start,
                loop_end,
                xfade_ms,
            );
            assert(self@.tracks =~= r.0.tracks);
            assert(self@ =~= r.0);
        }
        true
    }

    /// Stores the marker indices sorted and de-duplicated.  Everything else
    /// about the engine is unchanged; fails exactly when the track is
    /// unknown.
    pub fn engine_set_markers(&mut self, track_id: &str, markers: Vec<usize>) -> (ok: bool)
        requires
            old(self)@.wf(),
        ensures
            ok == (first_match(track_ids(old(self)@.tracks), track_id@) >= 0),
            !ok ==> final(self)@ == old(self)@,
            ok ==> ({
                let ti = first_match(track_ids(old(self)@.tracks), track_id@);
                let m2 = final(self)@.tracks[ti].markers;
                &&& final(self)@ == (EngineV {
                    tracks: old(self)@.tracks.update(
                        ti,
                        TrackV { markers: m2, ..old(self)@.tracks[ti] },
                    ),
                    ..old(self)@
                })
                &&& strictly_sorted(m2)
                &&& forall|y: usize| m2.contains(y) <==> markers@.contains(y)
            }),
            final(self)@.wf(),
    {
        let ti = match find_track(&self.tracks, track_id) {
            Some(i) => i,
            None => {
                return false;
            },
        };
        let mut sorted: Vec<usize> = Vec::new();
        let n = markers.len();
        let mut i: usize = 0;
        while i < n
            invariant
                i <= n,
                n == markers@.len(),
                strictly_sorted(sorted@),
                forall|y: usize|
                    sorted@.contains(y) <==> markers@.subrange(0, i as int).contains(y),
            decreases n - i,
        {
            let ghost pre = sorted@;
            sorted_insert_unique(&mut sorted, markers[i]);
            proof {
                let sub0 = markers@.subrange(0, i as int);
                let sub1 = markers@.subrange(0, i + 1);
                assert forall|y: usize| sorted@.contains(y) implies sub1.contains(y) by {
                    if pre.contains(y) {
                        let k = choose|k: int| 0 <= k < sub0.len() && sub0[k] == y;
                        assert(sub1[k] == y);
                    } else {
                        assert(y == markers@[i as int]);
                        assert(sub1[i as int] == y);
                    }
                }
                assert forall|y: usize| sub1.contains(y) implies sorted@.contains(y) by {
                    let k = choose|k: int| 0 <= k < sub1.len() && sub1[k] == y;
                    if k < i {
                        assert(sub0[k] == y);
                    } else {
                        assert(y == markers@[i as int]);
                    }
                }
            }
            i = i + 1;
        }
        proof {
            assert(markers@.subrange(0, n as int) =~= markers@);
        }
        self.tracks[ti].markers = sorted;
        proof {
            let ghost tio = first_match(track_ids(old(self)@.tracks), track_id@);
            let m2 = self@.tracks[tio].markers;
            assert(self@.tracks =~= old(self)@.tracks.update(
                tio,
                TrackV { markers: m2, ..old(self)@.tracks[tio] },
            ));
            assert(self@ =~= (EngineV {
                tracks: old(self)@.tracks.update(
                    tio,
                    TrackV { markers: m2, ..old(self)@.tracks[tio] },
                ),
                ..old(self)@
            }));
        }
        true
    }

    /// Schedules or performs an asset switch (see `spec_transition`).  Fails
    /// exactly when the incoming asset or the track is unknown; an
    /// unrecognised `at` word still reports success, as a no-op.
    pub fn engine_transition(
        &mut self,
        track_id: &str,
        at: &str,
        to_asset_id: &str,
        loop_mode: &str,
        loop_start: u32,
        loop_end: i32,
        xfade_ms: u32,
    ) -> (ok: bool)
        requires
            old(self)@.wf(),
        ensures
            (final(self)@, ok) == spec_transition(
                old(self)@,
                track_id@,
                at@,
                to_asset_id@,
                loop_mode@,
                loop_start,
                loop_end,
                xfade_ms,
            ),
            final(self)@.wf(),
    {
        let ai = match find_asset(&self.assets, to_asset_id) {
            Some(i) => i,
            None => {
                return false;
            },
        };
        let asr: u32 = self.assets[ai].sr;
        let cfg = loop_cfg(loop_mode, loop_start, loop_end, xfade_ms, asr);
        let ti = match find_track(&self.tracks, track_id) {
            Some(i) => i,
            None => {
                return false;
            },
        };
        let ghost spec_result = spec_transition(
            old(self)@,
            track_id@,
            at@,
            to_asset_id@,
            loop_mode@,
            loop_start,
            loop_end,
            xfade_ms,
        );
        if str_eq(at, "now") {
            let ps = PendingSwitch { to_asset: to_asset_id.to_owned(), cfg: cfg };
            self.tracks[ti].asset_id = ps.to_asset;
            self.tracks[ti].loop_cfg = cfg;
            proof {
                assert(cfg.start < 0x1_0000_0000) by {
                    assert(cfg == spec_loop_cfg(loop_mode@, loop_start, loop_end, xfade_ms, asr));
                }
            }
            self.tracks[ti].pos = (cfg.start as u64) * 0x1_0000_0000u64;
            self.tracks[ti].pending_switch = None;
            self.tracks[ti].pending_switch_at = None;
            proof {
                assert(self@.tracks =~= spec_result.0.tracks);
                assert(self@ =~= spec_result.0);
            }
        } else if str_eq(at, "loopEnd") {
            self.tracks[ti].pending_switch = Some(
                PendingSwitch { to_asset: to_asset_id.to_owned(), cfg: cfg },
            );
            self.tracks[ti].pending_switch_at = None;
            proof {
                assert(self@.tracks =~= spec_result.0.tracks);
                assert(self@ =~= spec_result.0);
            }
        } else if str_eq(at, "nextMarker") {
            let idx: u64 = self.tracks[ti].pos / 0x1_0000_0000u64;
            let ghost ms = self.tracks[ti as int]@.markers;
            let mut found: Option<usize> = None;
            let nm = self.tracks[ti].markers.len();
            let mut k: usize = 0;
            proof {
                lemma_first_above(ms, idx);
            }
            while k < nm
                invariant_except_break
                    found is None,
                invariant
                    k <= nm,
                    ti < self.tracks@.len(),
                    nm == self.tracks[ti as int].markers@.len(),
                    ms == self.tracks[ti as int]@.markers,
                    forall|j: int| 0 <= j < k ==> ms[j] <= idx,
                    first_above(ms, idx) == -1 || 0 <= first_above(ms, idx) < ms.len(),
                    first_above(ms, idx) == -1 ==> forall|j: int| 0 <= j < ms.len() ==> ms[j]
                        <= idx,
                    first_above(ms, idx) >= 0 ==> {
                        &&& ms[first_above(ms, idx)] > idx
                        &&& forall|j: int| 0 <= j < first_above(ms, idx) ==> ms[j] <= idx
                    },
                    match found {
                        Some(m) => first_above(ms, idx) >= 0 && m == ms[first_above(ms, idx)],
                        None => true,
                    },
                ensures
                    match found {
                        Some(m) => first_above(ms, idx) >= 0 && m == ms[first_above(ms, idx)],
                        None => first_above(ms, idx) == -1,
                    },
                decreases nm - k,
            {
                let m = self.tracks[ti].markers[k];
                if (m as u64) > idx {
                    found = Some(m);
                    proof {
                        assert(ms[k as int] > idx);
                        let fa = first_above(ms, idx);
                        assert(fa == k);
                        assert(found == Some(ms[fa]));
                    }
                    break ;
                }
                k = k + 1;
            }
            self.tracks[ti].pending_switch = Some(
                PendingSwitch { to_asset: to_asset_id.to_owned(), cfg: cfg },
            );
            self.tracks[ti].pending_switch_at = found;
            proof {
                assert(self@.tracks =~= spec_result.0.tracks);
                assert(self@ =~= spec_result.0);
            }
        } else {
            proof {
                assert(self@.tracks =~= spec_result.0.tracks);
                assert(self@ =~= spec_result.0);
            }
        }
        true
    }

    /// Installs a sidechain ducker on `target_bus`, keyed by `key_bus`,
    /// replacing any ducker previously aimed at the same target.
    pub fn engine_set_ducker(
        &mut self,
        target_bus: &str,
        key_bus: &str,
        threshold_db: i32,
        ratio: u32,
        attack_ms: u32,
        release_ms: u32,
        max_atten_db: i32,
        makeup_db: i32,
    )
        requires
            old(self)@.wf(),
        ensures
            final(self)@ == spec_set_ducker(
                old(self)@,
                spec_new_ducker(
                    target_bus@,
                    key_bus@,
                    threshold_db,
                    ratio,
                    attack_ms,
                    release_ms,
                    max_atten_db,
                    makeup_db,
                    old(self)@.sr,
                ),
            ),
            final(self)@.wf(),
    {
        let ghost dv = spec_new_ducker(
            target_bus@,
            key_bus@,
            threshold_db,
            ratio,
            attack_ms,
            release_ms,
            max_atten_db,
            makeup_db,
            self@.sr,
        );
        let r64: u64 = if ratio < 1 {
            1
        } else {
            ratio as u64
        };
        let d = Ducker {
            target_bus: target_bus.to_owned(),
            key_bus: key_bus.to_owned(),
            threshold_db: (threshold_db as i64) * FX_ONE,
            threshold_lin: pow10_db(threshold_db),
            ratio_comp: FX_ONE - ((FX_ONE as u64 / r64) as i64),
            attack: onepole_coeff(self.sr, attack_ms),
            release: onepole_coeff(self.sr, release_ms),
            max_atten_db: (if max_atten_db < 0 {
                0i64
            } else {
                max_atten_db as i64
            }) * FX_ONE,
            makeup_lin: pow10_db(makeup_db),
            env: 0,
            gr: FX_ONE,
        };
        proof {
            assert(d@ =~= dv);
        }
        let ghost olds = old(self)@.duckers;
        let ghost di = first_match(ducker_targets(olds), dv.target_bus);
        proof {
            lemma_first_match(ducker_targets(olds), dv.target_bus);
        }
        match find_ducker(&self.duckers, target_bus) {
            Some(i) => {
                self.duckers.remove(i);
                proof {
                    assert(self@.duckers =~= olds.remove(di));
                }
            },
            None => {},
        }
        self.duckers.push(d);
        proof {
            let kept = if di >= 0 {
                olds.remove(di)
            } else {
                olds
            };
            assert(self@.duckers =~= kept.push(dv));
            assert(self@ =~= spec_set_ducker(old(self)@, dv));
            let fin = self@.duckers;
            assert forall|i: int, j: int|
                0 <= i < j < fin.len() implies fin[i].target_bus != fin[j].target_bus by {
                if j < kept.len() {
                    if di >= 0 {
                        let oi = if i < di {
                            i
                        } else {
                            i + 1
                        };
                        let oj = if j < di {
                            j
                        } else {
                            j + 1
                        };
                        assert(kept[i] == olds[oi]);
                        assert(kept[j] == olds[oj]);
                    }
                } else {
                    assert(fin[j] == dv);
                    let oi = if di >= 0 && i >= di {
                        i + 1
                    } else {
                        i
                    };
                    assert(fin[i] == olds[oi]);
                    assert(ducker_targets(olds)[oi] == olds[oi].target_bus);
                    if olds[oi].target_bus == dv.target_bus {
                        if di == -1 {
                            assert(ducker_targets(olds)[oi] != dv.target_bus);
                        } else {
                            assert(oi != di);
                            assert(ducker_targets(olds)[di] == dv.target_bus);
                            assert(olds[di].target_bus == olds[oi].target_bus);
                            assert(false);
                        }
                    }
                }
            }
        }
    }

    /// Gives the named bus a steady starting gain, replacing any earlier
    /// gain entry for it.
    pub fn engine_create_bus(&mut self, bus_id: &str, gain_db: i32)
        requires
            old(self)@.wf(),
        ensures
            final(self)@ == spec_create_bus(old(self)@, bus_id@, gain_db),
            final(self)@.wf(),
    {
        let g = pow10_db(gain_db);
        let entry = BusGain {
            name: String::from_str(bus_id),
            ramp: GainRamp { gain: g, target: g, step: 0, frames: 0 },
        };
        proof {
            assert(entry@ =~= (BusGainV {
                name: bus_id@,
                ramp: spec_flat_ramp(spec_pow10_db(gain_db as int)),
            }));
        }
        match find_bus_gain(&self.bus_gains, bus_id) {
            Some(i) => {
                self.bus_gains[i] = entry;
                proof {
                    assert(self@.bus_gains =~= spec_create_bus(old(self)@, bus_id@, gain_db)
                        .bus_gains);
                    assert(self@ =~= spec_create_bus(old(self)@, bus_id@, gain_db));
                }
            },
            None => {
                self.bus_gains.push(entry);
                proof {
                    assert(self@.bus_gains =~= spec_create_bus(old(self)@, bus_id@, gain_db)
                        .bus_gains);
                    assert(self@ =~= spec_create_bus(old(self)@, bus_id@, gain_db));
                }
            },
        }
    }

    /// Installs a gain ramp on a track or a bus: linear in amplitude from
    /// the current gain to 10^(gain_db/20) over `ramp_ms` milliseconds.
    /// Fails exactly when the scope names a missing track or is neither
    /// "track" nor "bus".
    pub fn engine_set_gain(&mut self, scope: &str, id: &str, gain_db: i32, ramp_ms: u32) -> (ok:
        bool)
        requires
            old(self)@.wf(),
        ensures
            (final(self)@, ok) == (if scope@ == "track"@ {
                spec_set_track_gain(old(self)@, id@, gain_db, ramp_ms)
            } else if scope@ == "bus"@ {
                spec_set_bus_gain(old(self)@, id@, gain_db, ramp_ms)
            } else {
                (old(self)@, false)
            }),
            final(self)@.wf(),
    {
        if str_eq(scope, "track") {
            let ti = match find_track(&self.tracks, id) {
                Some(i) => i,
                None => {
                    return false;
                },
            };
            let g = gain_ramp(self.tracks[ti].gain, gain_db, ramp_ms, self.sr);
            self.tracks[ti].gain_target = g.target;
            self.tracks[ti].gain_step = g.step;
            self.tracks[ti].gain_frames = g.frames;
            proof {
                let r = spec_set_track_gain(old(self)@, id@, gain_db, ramp_ms);
                assert(self@.tracks =~= r.0.tracks);
                assert(self@ =~= r.0);
            }
            true
        } else if str_eq(scope, "bus") {
            match find_bus_gain(&self.bus_gains, id) {
                Some(gi) => {
                    let g = gain_ramp(self.bus_gains[gi].ramp.gain, gain_db, ramp_ms, self.sr);
                    self.bus_gains[gi] = BusGain { name: String::from_str(id), ramp: g };
                    proof {
                        let r = spec_set_bus_gain(old(self)@, id@, gain_db, ramp_ms);
                        assert(self@.bus_gains =~= r.0.bus_gains);
                        assert(self@ =~= r.0);
                    }
                },
                None => {
                    let g = gain_ramp(FX_ONE, gain_db, ramp_ms, self.sr);
                    self.bus_gains.push(BusGain { name: String::from_str(id), ramp: g });
                    proof {
                        let r = spec_set_bus_gain(old(self)@, id@, gain_db, ramp_ms);
                        assert(self@.bus_gains =~= r.0.bus_gains);
                        assert(self@ =~= r.0);
                    }
                },
            }
            true
        } else {
            false
        }
    }

    /// Creates a track on the default "sfx" bus.
    pub fn engine_create_track(&mut self, track_id: &str, asset_id: &str, pan: i64, gain_db: i32)
        -> (ok: bool)
        requires
            old(self)@.wf(),
        ensures
            (final(self)@, ok) == spec_create_track(
                old(self)@,
                track_id@,
                "sfx"@,
                asset_id@,
                pan,
                gain_db,
            ),
            final(self)@.wf(),
    {
        self.engine_create_track_bus(track_id, "sfx", asset_id, pan, gain_db)
    }
}

} // verus!
