//! The per-block renderer: resampling, loop handling, pending switches,
//! sidechain ducking and the master mix.
//!
//! Each playing track is rendered frame by frame through a cursor whose
//! one-frame advance is `spec_frame`; bus accumulators, duckers and the
//! master sum are each defined by a spec recursion that the executable
//! loops are proved to follow.

use vstd::prelude::*;

use crate::engine::{
    asset_ids, first_match, lemma_first_match, ramp_step, spec_ramp_step, spec_u64_sat, Asset,
    AssetV, BusGain, BusGainV, DuckerV, Engine, EngineV, GainRamp, LoopCfg, LoopMode,
    PendingSwitch, PendingSwitchV, Track, TrackV,
};
use crate::fx::{
    fx_add, fx_exp2_neg, fx_log2, fx_mul, fx_sub, isqrt_u128, spec_fx_add, spec_fx_exp2_neg,
    spec_fx_log2, spec_fx_mul, spec_fx_sub, DB_PER_OCTAVE, FX_ONE, INV_SQRT2, LOG2_10_OVER_20,
};
use crate::strutil::str_eq;

verus! {

/// Every asset has at least one channel.
pub open spec fn assets_wf(assets: Seq<AssetV>) -> bool {
    forall|i: int| 0 <= i < assets.len() ==> (#[trigger] assets[i]).ch.len() >= 1
}

/// The sample at `i`, or silence past the end.
pub open spec fn sample_at(ch: Seq<i64>, i: int) -> i64 {
    if 0 <= i < ch.len() {
        ch[i]
    } else {
        0
    }
}

/// The sample at `i`, or `fb` past the end (the right channel falls back to
/// the left sample).
pub open spec fn sample_at_or(ch: Seq<i64>, i: int, fb: i64) -> i64 {
    if 0 <= i < ch.len() {
        ch[i]
    } else {
        fb
    }
}

/// The effective loop end: an absent end, and one past the source length,
/// both mean the source length.
pub open spec fn spec_lend(cfg: LoopCfg, len_src: int) -> int {
    match cfg.end {
        Some(e) => if e < len_src {
            e as int
        } else {
            len_src
        },
        None => len_src,
    }
}

/// The per-track state a block render advances frame by frame.  The
/// resampling step and `len_src` (the bound asset's length when the block
/// began) stay frozen for the whole block, as does the gain/pan stage.
pub struct RenderCursor {
    pub pos: u64,
    pub asset_id: String,
    pub cfg: LoopCfg,
    pub pending: Option<PendingSwitch>,
    pub pending_at: Option<usize>,
    pub playing: bool,
    pub len_src: usize,
}

#[verifier::ext_equal]
pub ghost struct CursorV {
    pub pos: u64,
    pub asset_id: Seq<char>,
    pub cfg: LoopCfg,
    pub pending: Option<PendingSwitchV>,
    pub pending_at: Option<usize>,
    pub playing: bool,
    pub len_src: usize,
}

impl View for RenderCursor {
    type V = CursorV;

    open spec fn view(&self) -> CursorV {
        CursorV {
            pos: self.pos,
            asset_id: self.asset_id@,
            cfg: self.cfg,
            pending: match &self.pending {
                Some(p) => Some(p@),
                None => None,
            },
            pending_at: self.pending_at,
            playing: self.playing,
            len_src: self.len_src,
        }
    }
}

impl PendingSwitch {
    /// A field-for-field copy.
    pub fn duplicate(&self) -> (r: PendingSwitch)
        ensures
            r@ == self@,
    {
        PendingSwitch { to_asset: self.to_asset.clone(), cfg: self.cfg }
    }
}

/// Fires a marker-bound pending switch once the cursor has reached its
/// sample index.  A switch whose asset is unknown is dropped.
pub open spec fn spec_marker_switch(c: CursorV, assets: Seq<AssetV>) -> CursorV {
    let idx = c.pos / 0x1_0000_0000;
    match c.pending_at {
        Some(at) => if idx >= at as u64 {
            match c.pending {
                Some(ps) => {
                    let ai = first_match(asset_ids(assets), ps.to_asset);
                    if ai >= 0 {
                        CursorV {
                            asset_id: ps.to_asset,
                            cfg: ps.cfg,
                            pos: spec_u64_sat(ps.cfg.start * 0x1_0000_0000),
                            pending: None,
                            pending_at: None,
                            ..c
                        }
                    } else {
                        CursorV { pending: None, pending_at: None, ..c }
                    }
                },
                None => CursorV { pending: None, pending_at: None, ..c },
            }
        } else {
            c
        },
        None => c,
    }
}

/// Resolves the loop boundary of a looping cursor: a stored pending switch
/// fires there (keeping any stale marker binding, which the next frame
/// clears); otherwise the position wraps by the loop length.
pub open spec fn spec_boundary(c: CursorV, assets: Seq<AssetV>) -> CursorV {
    if c.cfg.mode is Once {
        c
    } else {
        let idx = c.pos / 0x1_0000_0000;
        let lend = spec_lend(c.cfg, c.len_src as int);
        if idx >= lend {
            match c.pending {
                Some(ps) => {
                    let ai = first_match(asset_ids(assets), ps.to_asset);
                    if ai >= 0 {
                        CursorV {
                            asset_id: ps.to_asset,
                            cfg: ps.cfg,
                            pos: spec_u64_sat(ps.cfg.start * 0x1_0000_0000),
                            pending: None,
                            ..c
                        }
                    } else {
                        CursorV { pending: None, ..c }
                    }
                },
                None => CursorV {
                    pos: spec_u64_sat(
                        c.cfg.start * 0x1_0000_0000 + (c.pos - lend * 0x1_0000_0000),
                    ),
                    ..c
                },
            }
        } else {
            c
        }
    }
}

/// The interpolated stereo sample under the cursor.  The next-sample index
/// wraps to the loop start on a seamless boundary, looks into an incoming
/// pending asset at the boundary, and otherwise clamps to the last sample.
pub open spec fn spec_fetch(c: CursorV, assets: Seq<AssetV>) -> (i64, i64) {
    let ai = first_match(asset_ids(assets), c.asset_id);
    if ai < 0 {
        (0, 0)
    } else {
        let a = assets[ai];
        let ch0 = a.ch[0];
        let ch1 = if a.ch.len() > 1 {
            a.ch[1]
        } else {
            a.ch[0]
        };
        let idx = (c.pos / 0x1_0000_0000) as int;
        let frac = (c.pos % 0x1_0000_0000) as i64;
        let s0l = sample_at(ch0, idx);
        let s0r = sample_at_or(ch1, idx, s0l);
        let idx1 = idx + 1;
        let lend = spec_lend(c.cfg, c.len_src as int);
        let lstart = c.cfg.start as int;
        let s1 = if c.cfg.mode is Seamless && idx1 == lend {
            let w = sample_at(ch0, lstart);
            (w, sample_at_or(ch1, lstart, w))
        } else if c.pending is Some && idx1 >= lend {
            let ps = c.pending->0;
            let nai = first_match(asset_ids(assets), ps.to_asset);
            if nai >= 0 {
                let na = assets[nai];
                let nch0 = na.ch[0];
                let nch1 = if na.ch.len() > 1 {
                    na.ch[1]
                } else {
                    na.ch[0]
                };
                let w = sample_at(nch0, ps.cfg.start as int);
                (w, sample_at_or(nch1, ps.cfg.start as int, w))
            } else {
                let cap = if c.len_src >= 1 {
                    c.len_src - 1
                } else {
                    0
                };
                let i1 = if idx1 < cap {
                    idx1
                } else {
                    cap as int
                };
                let w = sample_at(ch0, i1);
                (w, sample_at_or(ch1, i1, w))
            }
        } else {
            let cap = if c.len_src >= 1 {
                c.len_src - 1
            } else {
                0
            };
            let i1 = if idx1 < cap {
                idx1
            } else {
                cap as int
            };
            let w = sample_at(ch0, i1);
            (w, sample_at_or(ch1, i1, w))
        };
        let sl = spec_fx_add(s0l, spec_fx_mul(spec_fx_sub(s1.0, s0l), frac));
        let sr = spec_fx_add(s0r, spec_fx_mul(spec_fx_sub(s1.1, s0r), frac));
        (sl, sr)
    }
}

/// The length of the asset the cursor is bound to right now (0 when the
/// asset is unknown).
pub open spec fn spec_cur_len(c: CursorV, assets: Seq<AssetV>) -> int {
    let ai = first_match(asset_ids(assets), c.asset_id);
    if ai >= 0 && assets[ai].ch.len() >= 1 {
        assets[ai].ch[0].len() as int
    } else {
        0
    }
}

/// One frame of one track: marker switch, loop boundary, end-of-asset stop
/// for a once-through track, interpolated fetch, cursor advance.  Returns
/// the new cursor, the (pre-gain) stereo sample, and whether the track
/// stopped this frame.
pub open spec fn spec_frame(c: CursorV, step: u64, assets: Seq<AssetV>) -> (CursorV, i64, i64, bool) {
    let c1 = spec_marker_switch(c, assets);
    let c2 = spec_boundary(c1, assets);
    let idx = c2.pos / 0x1_0000_0000;
    let len_cur = spec_cur_len(c2, assets);
    let cap = if len_cur >= 1 {
        len_cur - 1
    } else {
        0
    };
    if c2.cfg.mode is Once && idx >= cap {
        (CursorV { playing: false, ..c2 }, 0, 0, true)
    } else {
        let s = spec_fetch(c2, assets);
        (CursorV { pos: spec_u64_sat(c2.pos + step), ..c2 }, s.0, s.1, false)
    }
}

fn sample_at_exec(ch: &Vec<i64>, i: u64) -> (s: i64)
    ensures
        s == sample_at(ch@, i as int),
{
    if i < ch.len() as u64 {
        ch[i as usize]
    } else {
        0
    }
}

fn sample_at_or_exec(ch: &Vec<i64>, i: u64, fb: i64) -> (s: i64)
    ensures
        s == sample_at_or(ch@, i as int, fb),
{
    if i < ch.len() as u64 {
        ch[i as usize]
    } else {
        fb
    }
}

fn shl32_sat(x: usize) -> (r: u64)
    ensures
        r == spec_u64_sat(x * 0x1_0000_0000),
{
    let p: u128 = (x as u128) * 0x1_0000_0000u128;
    if p > u64::MAX as u128 {
        u64::MAX
    } else {
        p as u64
    }
}

fn add_sat_u64(a: u64, b: u64) -> (r: u64)
    ensures
        r == spec_u64_sat(a + b),
{
    let s: u128 = a as u128 + b as u128;
    if s > u64::MAX as u128 {
        u64::MAX
    } else {
        s as u64
    }
}

/// The effective loop end, executable form.
fn lend_exec(cfg: &LoopCfg, len_src: usize) -> (e: usize)
    ensures
        e as int == spec_lend(*cfg, len_src as int),
{
    match cfg.end {
        Some(e) => if e < len_src {
            e
        } else {
            len_src
        },
        None => len_src,
    }
}

/// The cached position of the cursor's asset: rendering resolves the
/// string key once and keeps the index, refreshing it when a pending
/// switch rebinds the cursor.
pub open spec fn asset_cached(assets: Seq<AssetV>, id: Seq<char>, i: int) -> bool {
    &&& 0 <= i < assets.len()
    &&& first_match(asset_ids(assets), id) == i
}

/// Stage 1 of a frame: the marker-bound pending switch.
fn marker_switch_step(assets: &Vec<Asset>, cur: &mut RenderCursor, cur_idx: &mut usize)
    requires
        asset_cached(
            assets@.map_values(|a: Asset| a@),
            old(cur)@.asset_id,
            *old(cur_idx) as int,
        ),
    ensures
        final(cur)@ == spec_marker_switch(old(cur)@, assets@.map_values(|a: Asset| a@)),
        asset_cached(
            assets@.map_values(|a: Asset| a@),
            final(cur)@.asset_id,
            *final(cur_idx) as int,
        ),
{
    let ghost av = assets@.map_values(|a: Asset| a@);
    if let Some(at) = cur.pending_at {
        let idx0: u64 = cur.pos / 0x1_0000_0000u64;
        if idx0 >= at as u64 {
            let pend_dup: Option<PendingSwitch> = match &cur.pending {
                Some(ps) => Some(ps.duplicate()),
                None => None,
            };
            if let Some(ps) = pend_dup {
                if let Some(ai) = crate::engine::find_asset(assets, ps.to_asset.as_str()) {
                    cur.cfg = ps.cfg;
                    cur.pos = shl32_sat(ps.cfg.start);
                    cur.asset_id = ps.to_asset;
                    *cur_idx = ai;
                }
            }
            cur.pending = None;
            cur.pending_at = None;
        }
    }
    proof {
        assert(cur@ =~= spec_marker_switch(old(cur)@, av));
    }
}

/// Stage 2 of a frame: the loop boundary.
fn boundary_step(assets: &Vec<Asset>, cur: &mut RenderCursor, cur_idx: &mut usize)
    requires
        asset_cached(
            assets@.map_values(|a: Asset| a@),
            old(cur)@.asset_id,
            *old(cur_idx) as int,
        ),
    ensures
        final(cur)@ == spec_boundary(old(cur)@, assets@.map_values(|a: Asset| a@)),
        asset_cached(
            assets@.map_values(|a: Asset| a@),
            final(cur)@.asset_id,
            *final(cur_idx) as int,
        ),
{
    let ghost av = assets@.map_values(|a: Asset| a@);
    if !matches!(cur.cfg.mode, LoopMode::Once) {
        let idx0: u64 = cur.pos / 0x1_0000_0000u64;
        let lend = lend_exec(&cur.cfg, cur.len_src);
        if idx0 >= lend as u64 {
            let pend_dup: Option<PendingSwitch> = match &cur.pending {
                Some(ps) => Some(ps.duplicate()),
                None => None,
            };
            match pend_dup {
                Some(ps) => {
                    if let Some(ai) = crate::engine::find_asset(assets, ps.to_asset.as_str()) {
                        cur.cfg = ps.cfg;
                        cur.pos = shl32_sat(ps.cfg.start);
                        cur.asset_id = ps.to_asset;
                        *cur_idx = ai;
                    }
                    cur.pending = None;
                },
                None => {
                    let over: u64 = cur.pos - (lend as u64) * 0x1_0000_0000u64;
                    cur.pos = add_sat_u64(shl32_sat(cur.cfg.start), over);
                },
            }
        }
    }
    proof {
        assert(cur@ =~= spec_boundary(old(cur)@, av));
    }
}

/// Stage 4 of a frame: the interpolated fetch, through the cached asset.
#[verifier::rlimit(30)]
fn fetch_step(assets: &Vec<Asset>, cur: &RenderCursor, cur_idx: usize) -> (r: (i64, i64))
    requires
        assets_wf(assets@.map_values(|a: Asset| a@)),
        asset_cached(assets@.map_values(|a: Asset| a@), cur@.asset_id, cur_idx as int),
    ensures
        r == spec_fetch(cur@, assets@.map_values(|a: Asset| a@)),
{
    let ghost av = assets@.map_values(|a: Asset| a@);
    let idx: u64 = cur.pos / 0x1_0000_0000u64;
    let frac: u64 = cur.pos % 0x1_0000_0000u64;
    let a = &assets[cur_idx];
    proof {
        assert(av[cur_idx as int].ch.len() >= 1);
        assert(a@.ch.len() >= 1);
    }
    let two = a.ch.len() > 1;
    let ch0 = &a.ch[0];
    let ch1 = if two {
        &a.ch[1]
    } else {
        &a.ch[0]
    };
    let s0l = sample_at_exec(ch0, idx);
    let s0r = sample_at_or_exec(ch1, idx, s0l);
    let idx1: u64 = idx + 1;
    let lend = lend_exec(&cur.cfg, cur.len_src);
    let (s1l, s1r) = if matches!(cur.cfg.mode, LoopMode::Seamless) && idx1 == lend as u64 {
        let w = sample_at_exec(ch0, cur.cfg.start as u64);
        (w, sample_at_or_exec(ch1, cur.cfg.start as u64, w))
    } else if cur.pending.is_some() && idx1 >= lend as u64 {
        let found = match &cur.pending {
            Some(ps) => crate::engine::find_asset(assets, ps.to_asset.as_str()),
            None => None,
        };
        let ghost ps_start = cur@.pending->0.cfg.start;
        let start: usize = match &cur.pending {
            Some(ps) => ps.cfg.start,
            None => 0,
        };
        match found {
            Some(nai) => {
                let na = &assets[nai];
                proof {
                    assert(av[nai as int].ch.len() >= 1);
                    assert(na@.ch.len() >= 1);
                    assert(na@ == av[first_match(asset_ids(av), cur@.pending->0.to_asset)]);
                }
                let ntwo = na.ch.len() > 1;
                let nch0 = &na.ch[0];
                let nch1 = if ntwo {
                    &na.ch[1]
                } else {
                    &na.ch[0]
                };
                let w = sample_at_exec(nch0, start as u64);
                (w, sample_at_or_exec(nch1, start as u64, w))
            },
            None => {
                let cap1: u64 = if cur.len_src >= 1 {
                    (cur.len_src - 1) as u64
                } else {
                    0
                };
                let i1: u64 = if idx1 < cap1 {
                    idx1
                } else {
                    cap1
                };
                let w = sample_at_exec(ch0, i1);
                (w, sample_at_or_exec(ch1, i1, w))
            },
        }
    } else {
        let cap1: u64 = if cur.len_src >= 1 {
            (cur.len_src - 1) as u64
        } else {
            0
        };
        let i1: u64 = if idx1 < cap1 {
            idx1
        } else {
            cap1
        };
        let w = sample_at_exec(ch0, i1);
        (w, sample_at_or_exec(ch1, i1, w))
    };
    (
        fx_add(s0l, fx_mul(fx_sub(s1l, s0l), frac as i64)),
        fx_add(s0r, fx_mul(fx_sub(s1r, s0r), frac as i64)),
    )
}

/// Advances one cursor by one frame; see `spec_frame`.
fn frame_step(assets: &Vec<Asset>, step: u64, cur: &mut RenderCursor, cur_idx: &mut usize) -> (r: (
    i64,
    i64,
    bool,
))
    requires
        assets_wf(assets@.map_values(|a: Asset| a@)),
        asset_cached(
            assets@.map_values(|a: Asset| a@),
            old(cur)@.asset_id,
            *old(cur_idx) as int,
        ),
    ensures
        ({
            let (c2, sl, sr, stopped) = spec_frame(
                old(cur)@,
                step,
                assets@.map_values(|a: Asset| a@),
            );
            &&& final(cur)@ == c2
            &&& r == (sl, sr, stopped)
        }),
        asset_cached(
            assets@.map_values(|a: Asset| a@),
            final(cur)@.asset_id,
            *final(cur_idx) as int,
        ),
{
    let ghost av = assets@.map_values(|a: Asset| a@);
    marker_switch_step(assets, cur, cur_idx);
    boundary_step(assets, cur, cur_idx);
    let ghost c2 = cur@;
    // end-of-asset stop for a once-through track
    let len_cur: usize = {
        proof {
            assert(av[*cur_idx as int].ch.len() >= 1);
            assert(assets[*cur_idx as int]@.ch.len() >= 1);
        }
        assets[*cur_idx].ch[0].len()
    };
    proof {
        assert(len_cur as int == spec_cur_len(c2, av));
    }
    let cap: u64 = if len_cur >= 1 {
        (len_cur - 1) as u64
    } else {
        0
    };
    let idx: u64 = cur.pos / 0x1_0000_0000u64;
    if matches!(cur.cfg.mode, LoopMode::Once) && idx >= cap {
        cur.playing = false;
        proof {
            assert(cur@ =~= spec_frame(old(cur)@, step, av).0);
        }
        return (0, 0, true);
    }
    let (sl, sr) = fetch_step(assets, cur, *cur_idx);
    cur.pos = add_sat_u64(cur.pos, step);
    proof {
        assert(cur@ =~= spec_frame(old(cur)@, step, av).0);
    }
    (sl, sr, false)
}


/// A per-block stereo accumulator for one bus.
pub struct BusAcc {
    pub name: String,
    pub l: Vec<i64>,
    pub r: Vec<i64>,
}

#[verifier::ext_equal]
pub ghost struct BusV {
    pub name: Seq<char>,
    pub l: Seq<i64>,
    pub r: Seq<i64>,
}

impl View for BusAcc {
    type V = BusV;

    open spec fn view(&self) -> BusV {
        BusV { name: self.name@, l: self.l@, r: self.r@ }
    }
}

pub open spec fn bus_names(bs: Seq<BusV>) -> Seq<Seq<char>> {
    bs.map_values(|b: BusV| b.name)
}

pub open spec fn spec_zero_seq(n: nat) -> Seq<i64> {
    Seq::new(n, |i: int| 0i64)
}

fn zero_vec(n: usize) -> (v: Vec<i64>)
    ensures
        v@ =~= spec_zero_seq(n as nat),
{
    let mut v: Vec<i64> = Vec::new();
    let mut i: usize = 0;
    while i < n
        invariant
            i <= n,
            v@.len() == i,
            forall|k: int| 0 <= k < i ==> v@[k] == 0i64,
        decreases n - i,
    {
        v.push(0);
        i = i + 1;
    }
    v
}

fn copy_samples(src: &Vec<i64>) -> (v: Vec<i64>)
    ensures
        v@ =~= src@,
{
    let n = src.len();
    let mut v: Vec<i64> = Vec::new();
    let mut i: usize = 0;
    while i < n
        invariant
            i <= n,
            n == src@.len(),
            v@.len() == i,
            forall|k: int| 0 <= k < i ==> v@[k] == src@[k],
        decreases n - i,
    {
        v.push(src[i]);
        i = i + 1;
    }
    v
}

/// One track rendered into one bus accumulator, frame by frame from frame
/// `i` on: each frame first advances the track's gain ramp, then the
/// interpolated sample is scaled by the ramped gain and the pan and added
/// in; a stop ends the track's contribution for the block and freezes the
/// ramp.
pub open spec fn spec_render_track_into(
    c: CursorV,
    step: u64,
    g: GainRamp,
    pan_l: i64,
    pan_r: i64,
    assets: Seq<AssetV>,
    l: Seq<i64>,
    r: Seq<i64>,
    i: int,
) -> (CursorV, GainRamp, Seq<i64>, Seq<i64>)
    decreases l.len() - i,
{
    if !(0 <= i < l.len()) {
        (c, g, l, r)
    } else {
        let (c1, sl, sr, stopped) = spec_frame(c, step, assets);
        if stopped {
            (c1, g, l, r)
        } else {
            let g1 = spec_ramp_step(g);
            let l2 = l.update(i, spec_fx_add(l[i], spec_fx_mul(spec_fx_mul(sl, g1.gain), pan_l)));
            let r2 = r.update(i, spec_fx_add(r[i], spec_fx_mul(spec_fx_mul(sr, g1.gain), pan_r)));
            spec_render_track_into(c1, step, g1, pan_l, pan_r, assets, l2, r2, i + 1)
        }
    }
}

/// Renders one track into `bus` for the whole block; see
/// `spec_render_track_into`.
fn render_track(
    assets: &Vec<Asset>,
    step: u64,
    g: &mut GainRamp,
    pan_l: i64,
    pan_r: i64,
    cur: &mut RenderCursor,
    cur_idx: &mut usize,
    bus: &mut BusAcc,
) -> (nothing: ())
    requires
        assets_wf(assets@.map_values(|a: Asset| a@)),
        asset_cached(
            assets@.map_values(|a: Asset| a@),
            old(cur)@.asset_id,
            *old(cur_idx) as int,
        ),
        old(bus).l@.len() == old(bus).r@.len(),
    ensures
        final(bus)@.name == old(bus)@.name,
        final(bus).l@.len() == old(bus).l@.len(),
        final(bus).r@.len() == old(bus).r@.len(),
        ({
            let (c2, g2, l2, r2) = spec_render_track_into(
                old(cur)@,
                step,
                *old(g),
                pan_l,
                pan_r,
                assets@.map_values(|a: Asset| a@),
                old(bus).l@,
                old(bus).r@,
                0,
            );
            &&& final(cur)@ == c2
            &&& *final(g) == g2
            &&& final(bus).l@ == l2
            &&& final(bus).r@ == r2
        }),
{
    let ghost av = assets@.map_values(|a: Asset| a@);
    let ghost c0 = cur@;
    let ghost g0 = *g;
    let ghost l0 = bus.l@;
    let ghost r0 = bus.r@;
    let n = bus.l.len();
    let mut f: usize = 0;
    while f < n
        invariant_except_break
            spec_render_track_into(cur@, step, *g, pan_l, pan_r, av, bus.l@, bus.r@, f as int)
                == spec_render_track_into(c0, step, g0, pan_l, pan_r, av, l0, r0, 0),
        invariant
            f <= n,
            n == bus.l@.len(),
            n == bus.r@.len(),
            bus@.name == old(bus)@.name,
            assets_wf(av),
            av == assets@.map_values(|a: Asset| a@),
            asset_cached(av, cur@.asset_id, *cur_idx as int),
        ensures
            (cur@, *g, bus.l@, bus.r@) == spec_render_track_into(
                c0,
                step,
                g0,
                pan_l,
                pan_r,
                av,
                l0,
                r0,
                0,
            ),
            n == bus.l@.len(),
            n == bus.r@.len(),
            bus@.name == old(bus)@.name,
        decreases n - f,
    {
        let ghost cb = cur@;
        let ghost gb = *g;
        let ghost lb = bus.l@;
        let ghost rb = bus.r@;
        let (sl, sr, stopped) = frame_step(assets, step, cur, cur_idx);
        if stopped {
            proof {
                assert(spec_render_track_into(cb, step, gb, pan_l, pan_r, av, lb, rb, f as int)
                    == (cur@, *g, bus.l@, bus.r@));
            }
            break ;
        }
        *g = ramp_step(*g);
        let vl = bus.l[f];
        bus.l[f] = fx_add(vl, fx_mul(fx_mul(sl, g.gain), pan_l));
        let vr = bus.r[f];
        bus.r[f] = fx_add(vr, fx_mul(fx_mul(sr, g.gain), pan_r));
        proof {
            assert(spec_render_track_into(cb, step, gb, pan_l, pan_r, av, lb, rb, f as int)
                == spec_render_track_into(
                cur@,
                step,
                *g,
                pan_l,
                pan_r,
                av,
                bus.l@,
                bus.r@,
                f + 1,
            ));
        }
        f = f + 1;
    }
}

/// The cursor a block render starts from for a track bound to an asset of
/// length `len_src`.
pub open spec fn spec_cursor_of(t: TrackV, len_src: usize) -> CursorV {
    CursorV {
        pos: t.pos,
        asset_id: t.asset_id,
        cfg: t.loop_cfg,
        pending: t.pending_switch,
        pending_at: t.pending_switch_at,
        playing: t.playing,
        len_src: len_src,
    }
}

/// The gain ramp a track enters a block with.
pub open spec fn ramp_of(t: TrackV) -> GainRamp {
    GainRamp { gain: t.gain, target: t.gain_target, step: t.gain_step, frames: t.gain_frames }
}

/// The track after a block, with the cursor's and the gain ramp's end
/// states written back.
pub open spec fn spec_apply_cursor(t: TrackV, c: CursorV, g: GainRamp) -> TrackV {
    TrackV {
        pos: c.pos,
        asset_id: c.asset_id,
        loop_cfg: c.cfg,
        pending_switch: c.pending,
        pending_switch_at: c.pending_at,
        playing: c.playing,
        gain: g.gain,
        gain_frames: g.frames,
        ..t
    }
}

/// All tracks rendered in order from index `i` on.  A track that is not
/// playing, or whose asset is unknown, is skipped; otherwise its bus gains
/// an accumulator (zeroed on first use) and the track is rendered into it.
pub open spec fn spec_render_tracks(
    tracks: Seq<TrackV>,
    assets: Seq<AssetV>,
    n: nat,
    buses: Seq<BusV>,
    i: int,
) -> (Seq<TrackV>, Seq<BusV>)
    decreases tracks.len() - i,
{
    if !(0 <= i < tracks.len()) {
        (tracks, buses)
    } else {
        let t = tracks[i];
        let ai = first_match(asset_ids(assets), t.asset_id);
        if !t.playing || ai < 0 {
            spec_render_tracks(tracks, assets, n, buses, i + 1)
        } else {
            let len_src = assets[ai].ch[0].len();
            let bi0 = first_match(bus_names(buses), t.bus);
            let buses1 = if bi0 >= 0 {
                buses
            } else {
                buses.push(BusV { name: t.bus, l: spec_zero_seq(n), r: spec_zero_seq(n) })
            };
            let bi = if bi0 >= 0 {
                bi0
            } else {
                buses.len() as int
            };
            let (c2, g2, l2, r2) = spec_render_track_into(
                spec_cursor_of(t, len_src as usize),
                t.step,
                ramp_of(t),
                t.pan_l,
                t.pan_r,
                assets,
                buses1[bi].l,
                buses1[bi].r,
                0,
            );
            let tracks2 = tracks.update(i, spec_apply_cursor(t, c2, g2));
            let buses2 = buses1.update(bi, BusV { l: l2, r: r2, ..buses1[bi] });
            spec_render_tracks(tracks2, assets, n, buses2, i + 1)
        }
    }
}

fn find_bus(acc: &Vec<BusAcc>, name: &str) -> (r: Option<usize>)
    ensures
        ({
            let fm = first_match(bus_names(acc@.map_values(|b: BusAcc| b@)), name@);
            match r {
                Some(i) => 0 <= fm < acc@.len() && i == fm,
                None => fm == -1,
            }
        }),
{
    let ghost ids = bus_names(acc@.map_values(|b: BusAcc| b@));
    let n = acc.len();
    let mut i: usize = 0;
    while i < n
        invariant
            n == acc@.len(),
            i <= n,
            ids == bus_names(acc@.map_values(|b: BusAcc| b@)),
            forall|j: int| 0 <= j < i ==> ids[j] != name@,
        decreases n - i,
    {
        if str_eq(acc[i].name.as_str(), name) {
            proof {
                lemma_first_match(ids, name@);
                assert(acc@.map_values(|b: BusAcc| b@)[i as int].name == name@);
                assert(ids[i as int] == name@);
                let fm = first_match(ids, name@);
                if fm == -1 {
                    assert(ids[i as int] != name@);
                } else if fm < i {
                    assert(ids[fm] == name@);
                    assert(ids[fm] != name@);
                } else if fm > i {
                    assert(ids[i as int] != name@);
                }
            }
            return Some(i);
        }
        i = i + 1;
    }
    proof {
        lemma_first_match(ids, name@);
    }
    None
}

/// Finds the accumulator for `name`, appending a zeroed one when the bus
/// has none yet.
fn bus_index(acc: &mut Vec<BusAcc>, name: &str, n: usize) -> (bi: usize)
    ensures
        ({
            let bv0 = old(acc)@.map_values(|b: BusAcc| b@);
            let fm = first_match(bus_names(bv0), name@);
            &&& bi < final(acc)@.len()
            &&& (if fm >= 0 {
                final(acc)@.map_values(|b: BusAcc| b@) == bv0 && bi == fm
            } else {
                final(acc)@.map_values(|b: BusAcc| b@) =~= bv0.push(
                    BusV { name: name@, l: spec_zero_seq(n as nat), r: spec_zero_seq(n as nat) },
                ) && bi == old(acc)@.len()
            })
        }),
{
    match find_bus(acc, name) {
        Some(i) => i,
        None => {
            let b = BusAcc { name: String::from_str(name), l: zero_vec(n), r: zero_vec(n) };
            proof {
                assert(b@ =~= (BusV {
                    name: name@,
                    l: spec_zero_seq(n as nat),
                    r: spec_zero_seq(n as nat),
                }));
            }
            let bi = acc.len();
            acc.push(b);
            proof {
                assert(acc@.map_values(|b: BusAcc| b@) =~= old(acc)@.map_values(
                    |b: BusAcc| b@,
                ).push(
                    BusV { name: name@, l: spec_zero_seq(n as nat), r: spec_zero_seq(n as nat) },
                ));
            }
            bi
        },
    }
}

/// The floor of the square root.
pub open spec fn spec_isqrt(x: int) -> int {
    choose|r: int| 0 <= r && #[trigger] (r * r) <= x && x < (r + 1) * (r + 1)
}

proof fn lemma_isqrt_is(x: int, r: int)
    requires
        0 <= r,
        r * r <= x,
        x < (r + 1) * (r + 1),
    ensures
        r == spec_isqrt(x),
{
    assert(0 <= r && r * r <= x && x < (r + 1) * (r + 1));
    let q = spec_isqrt(x);
    assert(0 <= q && q * q <= x && x < (q + 1) * (q + 1)) by {
        assert(exists|z: int| 0 <= z && #[trigger] (z * z) <= x && x < (z + 1) * (z + 1));
    }
    if q < r {
        assert((q + 1) * (q + 1) <= r * r) by (nonlinear_arith)
            requires
                0 <= q < r,
        ;
    }
    if q > r {
        assert((r + 1) * (r + 1) <= q * q) by (nonlinear_arith)
            requires
                0 <= r < q,
        ;
    }
}

/// The running parameters and state of one ducker during a block.
#[derive(Clone, Copy)]
pub struct DuckRun {
    pub threshold_db: i64,
    pub threshold_lin: i64,
    pub ratio_comp: i64,
    pub attack: i64,
    pub release: i64,
    pub max_atten_db: i64,
    pub makeup_lin: i64,
    pub env: i64,
    pub gr: i64,
}

pub open spec fn duckrun_of(d: DuckerV) -> DuckRun {
    DuckRun {
        threshold_db: d.threshold_db,
        threshold_lin: d.threshold_lin,
        ratio_comp: d.ratio_comp,
        attack: d.attack,
        release: d.release,
        max_atten_db: d.max_atten_db,
        makeup_lin: d.makeup_lin,
        env: d.env,
        gr: d.gr,
    }
}

/// One ducker frame: stereo key magnitude, envelope follower, threshold /
/// ratio / clamp in the decibel domain, asymmetric gain smoothing, and the
/// target pair scaled by the smoothed reduction times make-up gain.
pub open spec fn spec_duck_frame(d: DuckRun, kl: i64, kr: i64, tl: i64, tr: i64) -> (
    DuckRun,
    i64,
    i64,
) {
    let m0 = spec_isqrt(kl * kl + kr * kr);
    let m1 = if m0 > i64::MAX as int {
        i64::MAX
    } else {
        m0 as i64
    };
    let mag = spec_fx_mul(m1, INV_SQRT2);
    let delta = spec_fx_sub(mag, d.env);
    let env2 = spec_fx_add(
        d.env,
        spec_fx_mul(
            if delta > 0 {
                d.attack
            } else {
                d.release
            },
            delta,
        ),
    );
    let gtar = if env2 > d.threshold_lin && env2 >= 1 {
        let env_db = spec_fx_mul(spec_fx_log2(env2 as u64), DB_PER_OCTAVE);
        let exceed = spec_fx_sub(env_db, d.threshold_db);
        let atten = spec_fx_mul(d.ratio_comp, exceed);
        let atten_c = if atten < 0 {
            0i64
        } else if atten > d.max_atten_db {
            d.max_atten_db
        } else {
            atten
        };
        let z = spec_fx_mul(atten_c, LOG2_10_OVER_20);
        spec_fx_exp2_neg(
            if z >= 0 {
                z
            } else {
                0
            },
        )
    } else {
        0x1_0000_0000
    };
    let dgr = spec_fx_sub(gtar, d.gr);
    let gr2 = spec_fx_add(
        d.gr,
        spec_fx_mul(
            if dgr > 0 {
                d.release
            } else {
                d.attack
            },
            dgr,
        ),
    );
    let factor = spec_fx_mul(gr2, d.makeup_lin);
    (
        DuckRun { env: env2, gr: gr2, ..d },
        spec_fx_mul(tl, factor),
        spec_fx_mul(tr, factor),
    )
}

/// A ducker applied to a whole block, frame `i` on.
pub open spec fn spec_duck_bus(
    d: DuckRun,
    kl: Seq<i64>,
    kr: Seq<i64>,
    tl: Seq<i64>,
    tr: Seq<i64>,
    i: int,
) -> (DuckRun, Seq<i64>, Seq<i64>)
    decreases tl.len() - i,
{
    if !(0 <= i < tl.len()) {
        (d, tl, tr)
    } else {
        let (d2, l2, r2) = spec_duck_frame(d, sample_at(kl, i), sample_at(kr, i), tl[i], tr[i]);
        spec_duck_bus(d2, kl, kr, tl.update(i, l2), tr.update(i, r2), i + 1)
    }
}

/// One ducker frame, executable form; see `spec_duck_frame`.
fn duck_frame(d: &mut DuckRun, kl: i64, kr: i64, tl: i64, tr: i64) -> (out: (i64, i64))
    ensures
        ({
            let (d2, l2, r2) = spec_duck_frame(*old(d), kl, kr, tl, tr);
            &&& *final(d) == d2
            &&& out == (l2, r2)
        }),
{
    proof {
        assert(kl as i128 * kl as i128 >= 0 && kl as i128 * kl as i128
            <= 0x8000_0000_0000_0000i128 * 0x8000_0000_0000_0000i128 && kr as i128 * kr as i128
            >= 0 && kr as i128 * kr as i128 <= 0x8000_0000_0000_0000i128
            * 0x8000_0000_0000_0000i128) by (nonlinear_arith)
            requires
                -0x8000_0000_0000_0000i128 <= kl as i128 <= 0x7FFF_FFFF_FFFF_FFFFi128,
                -0x8000_0000_0000_0000i128 <= kr as i128 <= 0x7FFF_FFFF_FFFF_FFFFi128,
        ;
    }
    let sq: u128 = ((kl as i128 * kl as i128) as u128) + ((kr as i128 * kr as i128) as u128);
    let root: u64 = isqrt_u128(sq);
    proof {
        lemma_isqrt_is(sq as int, root as int);
        assert(sq as int == kl * kl + kr * kr);
    }
    let m1: i64 = if root > i64::MAX as u64 {
        i64::MAX
    } else {
        root as i64
    };
    let mag = fx_mul(m1, INV_SQRT2);
    let delta = fx_sub(mag, d.env);
    let env2 = fx_add(
        d.env,
        fx_mul(
            if delta > 0 {
                d.attack
            } else {
                d.release
            },
            delta,
        ),
    );
    d.env = env2;
    let gtar: i64 = if env2 > d.threshold_lin && env2 >= 1 {
        let env_db = fx_mul(fx_log2(env2 as u64), DB_PER_OCTAVE);
        let exceed = fx_sub(env_db, d.threshold_db);
        let atten = fx_mul(d.ratio_comp, exceed);
        let atten_c = if atten < 0 {
            0i64
        } else if atten > d.max_atten_db {
            d.max_atten_db
        } else {
            atten
        };
        let z = fx_mul(atten_c, LOG2_10_OVER_20);
        fx_exp2_neg(
            if z >= 0 {
                z
            } else {
                0
            },
        )
    } else {
        FX_ONE
    };
    let dgr = fx_sub(gtar, d.gr);
    let gr2 = fx_add(
        d.gr,
        fx_mul(
            if dgr > 0 {
                d.release
            } else {
                d.attack
            },
            dgr,
        ),
    );
    d.gr = gr2;
    let factor = fx_mul(gr2, d.makeup_lin);
    (fx_mul(tl, factor), fx_mul(tr, factor))
}

/// Applies one ducker to its target bus for the whole block; see
/// `spec_duck_bus`.
fn duck_bus(d: &mut DuckRun, key_l: &Vec<i64>, key_r: &Vec<i64>, bus: &mut BusAcc)
    requires
        old(bus).l@.len() == old(bus).r@.len(),
    ensures
        final(bus)@.name == old(bus)@.name,
        final(bus).l@.len() == old(bus).l@.len(),
        final(bus).r@.len() == old(bus).r@.len(),
        ({
            let (d2, l2, r2) = spec_duck_bus(*old(d), key_l@, key_r@, old(bus).l@, old(bus).r@, 0);
            &&& *final(d) == d2
            &&& final(bus).l@ == l2
            &&& final(bus).r@ == r2
        }),
{
    let ghost d0 = *d;
    let ghost l0 = bus.l@;
    let ghost r0 = bus.r@;
    let n = bus.l.len();
    let mut f: usize = 0;
    while f < n
        invariant
            f <= n,
            n == bus.l@.len(),
            n == bus.r@.len(),
            bus@.name == old(bus)@.name,
            spec_duck_bus(*d, key_l@, key_r@, bus.l@, bus.r@, f as int) == spec_duck_bus(
                d0,
                key_l@,
                key_r@,
                l0,
                r0,
                0,
            ),
        decreases n - f,
    {
        let ghost db = *d;
        let ghost lb = bus.l@;
        let ghost rb = bus.r@;
        let kl = sample_at_exec(key_l, f as u64);
        let kr = sample_at_exec(key_r, f as u64);
        let tl = bus.l[f];
        let tr = bus.r[f];
        let (l2, r2) = duck_frame(d, kl, kr, tl, tr);
        bus.l[f] = l2;
        bus.r[f] = r2;
        proof {
            assert(spec_duck_bus(db, key_l@, key_r@, lb, rb, f as int) == spec_duck_bus(
                *d,
                key_l@,
                key_r@,
                bus.l@,
                bus.r@,
                f + 1,
            ));
        }
        f = f + 1;
    }
}

/// All duckers applied in order from index `i` on.  A ducker whose key or
/// target bus has no accumulator this block is skipped, its state kept.
/// The key is read as it stands when the ducker runs.
pub open spec fn spec_apply_duckers(duckers: Seq<DuckerV>, buses: Seq<BusV>, i: int) -> (
    Seq<DuckerV>,
    Seq<BusV>,
)
    decreases duckers.len() - i,
{
    if !(0 <= i < duckers.len()) {
        (duckers, buses)
    } else {
        let d = duckers[i];
        let ki = first_match(bus_names(buses), d.key_bus);
        let ti = first_match(bus_names(buses), d.target_bus);
        if ki < 0 || ti < 0 {
            spec_apply_duckers(duckers, buses, i + 1)
        } else {
            let (d2, l2, r2) = spec_duck_bus(
                duckrun_of(d),
                buses[ki].l,
                buses[ki].r,
                buses[ti].l,
                buses[ti].r,
                0,
            );
            let duckers2 = duckers.update(i, DuckerV { env: d2.env, gr: d2.gr, ..d });
            let buses2 = buses.update(ti, BusV { l: l2, r: r2, ..buses[ti] });
            spec_apply_duckers(duckers2, buses2, i + 1)
        }
    }
}

/// A gain ramp advanced `k` frames with nothing to scale.
pub open spec fn spec_ramp_frames(g: GainRamp, k: nat) -> GainRamp
    decreases k,
{
    if k == 0 {
        g
    } else {
        spec_ramp_frames(spec_ramp_step(g), (k - 1) as nat)
    }
}

/// One bus gain applied to a whole block, frame `i` on: each frame first
/// advances the ramp, then scales the pair.
pub open spec fn spec_bus_gain_frames(g: GainRamp, l: Seq<i64>, r: Seq<i64>, i: int) -> (
    GainRamp,
    Seq<i64>,
    Seq<i64>,
)
    decreases l.len() - i,
{
    if !(0 <= i < l.len()) {
        (g, l, r)
    } else {
        let g1 = spec_ramp_step(g);
        spec_bus_gain_frames(
            g1,
            l.update(i, spec_fx_mul(l[i], g1.gain)),
            r.update(i, spec_fx_mul(r[i], g1.gain)),
            i + 1,
        )
    }
}

/// Every bus gain applied in order from index `i` on.  A gain whose bus has
/// an accumulator this block scales it frame by frame; one whose bus is
/// silent this block still advances by the block length — ramps run on
/// output time, not on audibility.
pub open spec fn spec_apply_bus_gains(
    gains: Seq<BusGainV>,
    buses: Seq<BusV>,
    n: nat,
    i: int,
) -> (Seq<BusGainV>, Seq<BusV>)
    decreases gains.len() - i,
{
    if !(0 <= i < gains.len()) {
        (gains, buses)
    } else {
        let g = gains[i];
        let bi = first_match(bus_names(buses), g.name);
        if bi >= 0 {
            let (g2, l2, r2) = spec_bus_gain_frames(g.ramp, buses[bi].l, buses[bi].r, 0);
            spec_apply_bus_gains(
                gains.update(i, BusGainV { ramp: g2, ..g }),
                buses.update(bi, BusV { l: l2, r: r2, ..buses[bi] }),
                n,
                i + 1,
            )
        } else {
            spec_apply_bus_gains(
                gains.update(i, BusGainV { ramp: spec_ramp_frames(g.ramp, n), ..g }),
                buses,
                n,
                i + 1,
            )
        }
    }
}

/// Applies one bus gain to its accumulator for the whole block; see
/// `spec_bus_gain_frames`.
fn bus_gain_frames(g: &mut GainRamp, bus: &mut BusAcc)
    requires
        old(bus).l@.len() == old(bus).r@.len(),
    ensures
        final(bus)@.name == old(bus)@.name,
        final(bus).l@.len() == old(bus).l@.len(),
        final(bus).r@.len() == old(bus).r@.len(),
        ({
            let (g2, l2, r2) = spec_bus_gain_frames(*old(g), old(bus).l@, old(bus).r@, 0);
            &&& *final(g) == g2
            &&& final(bus).l@ == l2
            &&& final(bus).r@ == r2
        }),
{
    let ghost g0 = *g;
    let ghost l0 = bus.l@;
    let ghost r0 = bus.r@;
    let n = bus.l.len();
    let mut f: usize = 0;
    while f < n
        invariant
            f <= n,
            n == bus.l@.len(),
            n == bus.r@.len(),
            bus@.name == old(bus)@.name,
            spec_bus_gain_frames(*g, bus.l@, bus.r@, f as int) == spec_bus_gain_frames(
                g0,
                l0,
                r0,
                0,
            ),
        decreases n - f,
    {
        let ghost gb = *g;
        let ghost lb = bus.l@;
        let ghost rb = bus.r@;
        *g = ramp_step(*g);
        let vl = bus.l[f];
        bus.l[f] = fx_mul(vl, g.gain);
        let vr = bus.r[f];
        bus.r[f] = fx_mul(vr, g.gain);
        proof {
            assert(spec_bus_gain_frames(gb, lb, rb, f as int) == spec_bus_gain_frames(
                *g,
                bus.l@,
                bus.r@,
                f + 1,
            ));
        }
        f = f + 1;
    }
}

/// Runs every bus gain over the accumulators; see `spec_apply_bus_gains`.
fn apply_all_bus_gains(gains: &mut Vec<BusGain>, busacc: &mut Vec<BusAcc>, n: usize)
    requires
        buses_sized(old(busacc)@.map_values(|b: BusAcc| b@), n as nat),
    ensures
        ({
            let (g2, b2) = spec_apply_bus_gains(
                old(gains)@.map_values(|g: BusGain| g@),
                old(busacc)@.map_values(|b: BusAcc| b@),
                n as nat,
                0,
            );
            &&& final(gains)@.map_values(|g: BusGain| g@) == g2
            &&& final(busacc)@.map_values(|b: BusAcc| b@) == b2
        }),
        buses_sized(final(busacc)@.map_values(|b: BusAcc| b@), n as nat),
{
    let ghost g0 = gains@.map_values(|g: BusGain| g@);
    let ghost bv0 = busacc@.map_values(|b: BusAcc| b@);
    let gn = gains.len();
    let mut gi: usize = 0;
    while gi < gn
        invariant
            gi <= gn,
            gn == gains@.len(),
            buses_sized(busacc@.map_values(|b: BusAcc| b@), n as nat),
            spec_apply_bus_gains(
                gains@.map_values(|g: BusGain| g@),
                busacc@.map_values(|b: BusAcc| b@),
                n as nat,
                gi as int,
            ) == spec_apply_bus_gains(g0, bv0, n as nat, 0),
        decreases gn - gi,
    {
        let ghost gb = gains@.map_values(|g: BusGain| g@);
        let ghost bvb = busacc@.map_values(|b: BusAcc| b@);
        match find_bus(busacc, gains[gi].name.as_str()) {
            Some(bi) => {
                let mut ramp = gains[gi].ramp;
                proof {
                    assert(ramp == gb[gi as int].ramp);
                    assert(busacc@[bi as int]@.l.len() == n);
                }
                bus_gain_frames(&mut ramp, &mut busacc[bi]);
                gains[gi].ramp = ramp;
                proof {
                    let g = gb[gi as int];
                    let (g2, l2, r2) = spec_bus_gain_frames(
                        g.ramp,
                        bvb[bi as int].l,
                        bvb[bi as int].r,
                        0,
                    );
                    assert(gains@.map_values(|gg: BusGain| gg@) =~= gb.update(
                        gi as int,
                        BusGainV { ramp: g2, ..g },
                    ));
                    assert(busacc@.map_values(|b: BusAcc| b@) =~= bvb.update(
                        bi as int,
                        BusV { l: l2, r: r2, ..bvb[bi as int] },
                    ));
                    assert(spec_apply_bus_gains(gb, bvb, n as nat, gi as int)
                        == spec_apply_bus_gains(
                        gains@.map_values(|gg: BusGain| gg@),
                        busacc@.map_values(|b: BusAcc| b@),
                        n as nat,
                        gi + 1,
                    ));
                }
            },
            None => {
                let mut ramp = gains[gi].ramp;
                let mut f: usize = 0;
                while f < n
                    invariant
                        f <= n,
                        spec_ramp_frames(ramp, (n - f) as nat) == spec_ramp_frames(
                            gb[gi as int].ramp,
                            n as nat,
                        ),
                        gi < gn,
                        gn == gb.len(),
                    decreases n - f,
                {
                    ramp = ramp_step(ramp);
                    f = f + 1;
                }
                gains[gi].ramp = ramp;
                proof {
                    let g = gb[gi as int];
                    assert(spec_ramp_frames(ramp, 0) == ramp);
                    assert(gains@.map_values(|gg: BusGain| gg@) =~= gb.update(
                        gi as int,
                        BusGainV { ramp: spec_ramp_frames(g.ramp, n as nat), ..g },
                    ));
                    assert(spec_apply_bus_gains(gb, bvb, n as nat, gi as int)
                        == spec_apply_bus_gains(
                        gains@.map_values(|gg: BusGain| gg@),
                        bvb,
                        n as nat,
                        gi + 1,
                    ));
                    assert(busacc@.map_values(|b: BusAcc| b@) == bvb);
                }
            },
        }
        gi = gi + 1;
    }
}

/// The master mix: every bus accumulator from index `i` on summed into the
/// output pair.
pub open spec fn spec_mix(buses: Seq<BusV>, out_l: Seq<i64>, out_r: Seq<i64>, i: int) -> (
    Seq<i64>,
    Seq<i64>,
)
    decreases buses.len() - i,
{
    if !(0 <= i < buses.len()) {
        (out_l, out_r)
    } else {
        let b = buses[i];
        let ol2 = Seq::new(out_l.len(), |k: int| spec_fx_add(out_l[k], sample_at(b.l, k)));
        let or2 = Seq::new(out_r.len(), |k: int| spec_fx_add(out_r[k], sample_at(b.r, k)));
        spec_mix(buses, ol2, or2, i + 1)
    }
}

/// Everything `engine_process_into` does to the engine and the first `n`
/// output frames: render the playing tracks onto their buses, run the
/// duckers, apply the bus gains, and sum the buses.
pub open spec fn spec_process(e: EngineV, n: nat) -> (EngineV, Seq<i64>, Seq<i64>) {
    let (tracks2, buses) = spec_render_tracks(e.tracks, e.assets, n, Seq::empty(), 0);
    let (duckers2, buses2) = spec_apply_duckers(e.duckers, buses, 0);
    let (gains2, buses3) = spec_apply_bus_gains(e.bus_gains, buses2, n, 0);
    let (ol, orr) = spec_mix(buses3, spec_zero_seq(n), spec_zero_seq(n), 0);
    (EngineV { tracks: tracks2, duckers: duckers2, bus_gains: gains2, ..e }, ol, orr)
}


/// Every bus accumulator holds `n` frames per side.
pub open spec fn buses_sized(bs: Seq<BusV>, n: nat) -> bool {
    forall|i: int|
        0 <= i < bs.len() ==> (#[trigger] bs[i]).l.len() == n && bs[i].r.len() == n
}

/// The per-track render keeps the accumulator lengths.
pub proof fn lemma_render_track_into_len(
    c: CursorV,
    step: u64,
    g: GainRamp,
    pan_l: i64,
    pan_r: i64,
    assets: Seq<AssetV>,
    l: Seq<i64>,
    r: Seq<i64>,
    i: int,
)
    requires
        l.len() == r.len(),
    ensures
        ({
            let (c2, g2, l2, r2) = spec_render_track_into(c, step, g, pan_l, pan_r, assets, l, r, i);
            l2.len() == l.len() && r2.len() == r.len()
        }),
    decreases l.len() - i,
{
    if 0 <= i < l.len() {
        let (c1, sl, sr, stopped) = spec_frame(c, step, assets);
        if !stopped {
            let g1 = spec_ramp_step(g);
            let l2 = l.update(i, spec_fx_add(l[i], spec_fx_mul(spec_fx_mul(sl, g1.gain), pan_l)));
            let r2 = r.update(i, spec_fx_add(r[i], spec_fx_mul(spec_fx_mul(sr, g1.gain), pan_r)));
            lemma_render_track_into_len(c1, step, g1, pan_l, pan_r, assets, l2, r2, i + 1);
        }
    }
}

/// Renders every playing track into the bus accumulators; see
/// `spec_render_tracks`.
#[verifier::rlimit(60)]
fn render_all_tracks(
    assets: &Vec<Asset>,
    tracks: &mut Vec<Track>,
    busacc: &mut Vec<BusAcc>,
    n: usize,
)
    requires
        assets_wf(assets@.map_values(|a: Asset| a@)),
        buses_sized(old(busacc)@.map_values(|b: BusAcc| b@), n as nat),
    ensures
        ({
            let (t2, b2) = spec_render_tracks(
                old(tracks)@.map_values(|t: Track| t@),
                assets@.map_values(|a: Asset| a@),
                n as nat,
                old(busacc)@.map_values(|b: BusAcc| b@),
                0,
            );
            &&& final(tracks)@.map_values(|t: Track| t@) == t2
            &&& final(busacc)@.map_values(|b: BusAcc| b@) == b2
        }),
        buses_sized(final(busacc)@.map_values(|b: BusAcc| b@), n as nat),
{
    let ghost av = assets@.map_values(|a: Asset| a@);
    let ghost tr0 = tracks@.map_values(|t: Track| t@);
    let ghost bv0 = busacc@.map_values(|b: BusAcc| b@);
    let tn = tracks.len();
    let mut ti: usize = 0;
    while ti < tn
        invariant
            ti <= tn,
            tn == tracks@.len(),
            assets_wf(av),
            av == assets@.map_values(|a: Asset| a@),
            buses_sized(busacc@.map_values(|b: BusAcc| b@), n as nat),
            spec_render_tracks(
                tracks@.map_values(|t: Track| t@),
                av,
                n as nat,
                busacc@.map_values(|b: BusAcc| b@),
                ti as int,
            ) == spec_render_tracks(tr0, av, n as nat, bv0, 0),
        decreases tn - ti,
    {
        let ghost trb = tracks@.map_values(|t: Track| t@);
        let ghost bvb = busacc@.map_values(|b: BusAcc| b@);
        let playing = tracks[ti].playing;
        if playing {
            let found: Option<usize> = crate::engine::find_asset(
                assets,
                tracks[ti].asset_id.as_str(),
            );
            match found {
                Some(ai) => {
                    proof {
                        assert(av[ai as int].ch.len() >= 1);
                        assert(assets[ai as int]@.ch.len() >= 1);
                    }
                    let len_src = assets[ai].ch[0].len();
                    let step = tracks[ti].step;
                    let mut g = GainRamp {
                        gain: tracks[ti].gain,
                        target: tracks[ti].gain_target,
                        step: tracks[ti].gain_step,
                        frames: tracks[ti].gain_frames,
                    };
                    let pan_l = tracks[ti].pan_l;
                    let pan_r = tracks[ti].pan_r;
                    let bi = bus_index(busacc, tracks[ti].bus.as_str(), n);
                    let mut cur = RenderCursor {
                        pos: tracks[ti].pos,
                        asset_id: tracks[ti].asset_id.clone(),
                        cfg: tracks[ti].loop_cfg,
                        pending: match &tracks[ti].pending_switch {
                            Some(p) => Some(p.duplicate()),
                            None => None,
                        },
                        pending_at: tracks[ti].pending_switch_at,
                        playing: true,
                        len_src: len_src,
                    };
                    proof {
                        assert(cur@ =~= spec_cursor_of(trb[ti as int], len_src));
                        assert(g == ramp_of(trb[ti as int]));
                        assert(busacc@[bi as int]@.l.len() == n);
                    }
                    let mut cur_idx: usize = ai;
                    render_track(
                        assets,
                        step,
                        &mut g,
                        pan_l,
                        pan_r,
                        &mut cur,
                        &mut cur_idx,
                        &mut busacc[bi],
                    );
                    tracks[ti].pos = cur.pos;
                    tracks[ti].asset_id = cur.asset_id;
                    tracks[ti].loop_cfg = cur.cfg;
                    tracks[ti].pending_switch = cur.pending;
                    tracks[ti].pending_switch_at = cur.pending_at;
                    tracks[ti].playing = cur.playing;
                    tracks[ti].gain = g.gain;
                    tracks[ti].gain_frames = g.frames;
                    proof {
                        let t = trb[ti as int];
                        let ai = first_match(asset_ids(av), t.asset_id);
                        let bi0 = first_match(bus_names(bvb), t.bus);
                        let buses1 = if bi0 >= 0 {
                            bvb
                        } else {
                            bvb.push(
                                BusV {
                                    name: t.bus,
                                    l: spec_zero_seq(n as nat),
                                    r: spec_zero_seq(n as nat),
                                },
                            )
                        };
                        let (c2, g2, l2, r2) = spec_render_track_into(
                            spec_cursor_of(t, len_src),
                            t.step,
                            ramp_of(t),
                            t.pan_l,
                            t.pan_r,
                            av,
                            buses1[bi as int].l,
                            buses1[bi as int].r,
                            0,
                        );
                        assert(cur@ == c2);
                        assert(g == g2);
                        assert(tracks@.map_values(|tt: Track| tt@) =~= trb.update(
                            ti as int,
                            spec_apply_cursor(t, c2, g2),
                        ));
                        assert(busacc@.map_values(|b: BusAcc| b@) =~= buses1.update(
                            bi as int,
                            BusV { l: l2, r: r2, ..buses1[bi as int] },
                        ));
                        assert(spec_render_tracks(
                            trb,
                            av,
                            n as nat,
                            bvb,
                            ti as int,
                        ) == spec_render_tracks(
                            tracks@.map_values(|tt: Track| tt@),
                            av,
                            n as nat,
                            busacc@.map_values(|b: BusAcc| b@),
                            ti + 1,
                        ));
                    }
                },
                None => {
                    proof {
                        assert(spec_render_tracks(trb, av, n as nat, bvb, ti as int)
                            == spec_render_tracks(trb, av, n as nat, bvb, ti + 1));
                    }
                },
            }
        } else {
            proof {
                assert(spec_render_tracks(trb, av, n as nat, bvb, ti as int)
                    == spec_render_tracks(trb, av, n as nat, bvb, ti + 1));
            }
        }
        ti = ti + 1;
    }
}

proof fn lemma_duck_bus_len(
    d: DuckRun,
    kl: Seq<i64>,
    kr: Seq<i64>,
    tl: Seq<i64>,
    tr: Seq<i64>,
    i: int,
)
    requires
        tl.len() == tr.len(),
    ensures
        ({
            let (d2, l2, r2) = spec_duck_bus(d, kl, kr, tl, tr, i);
            l2.len() == tl.len() && r2.len() == tr.len()
        }),
    decreases tl.len() - i,
{
    if 0 <= i < tl.len() {
        let (d2, l2, r2) = spec_duck_frame(d, sample_at(kl, i), sample_at(kr, i), tl[i], tr[i]);
        lemma_duck_bus_len(d2, kl, kr, tl.update(i, l2), tr.update(i, r2), i + 1);
    }
}

/// `spec_apply_duckers` changes only envelope and gain-reduction state:
/// names, parameters, count and order of the duckers stay.
pub proof fn lemma_apply_duckers_skeleton(duckers: Seq<DuckerV>, buses: Seq<BusV>, i: int)
    ensures
        ({
            let (d2, b2) = spec_apply_duckers(duckers, buses, i);
            &&& d2.len() == duckers.len()
            &&& forall|k: int|
                0 <= k < duckers.len() ==> (#[trigger] d2[k]).target_bus
                    == duckers[k].target_bus && d2[k].key_bus == duckers[k].key_bus
        }),
    decreases duckers.len() - i,
{
    if 0 <= i < duckers.len() {
        let d = duckers[i];
        let ki = first_match(bus_names(buses), d.key_bus);
        let ti = first_match(bus_names(buses), d.target_bus);
        if ki < 0 || ti < 0 {
            lemma_apply_duckers_skeleton(duckers, buses, i + 1);
        } else {
            let (d2, l2, r2) = spec_duck_bus(
                duckrun_of(d),
                buses[ki].l,
                buses[ki].r,
                buses[ti].l,
                buses[ti].r,
                0,
            );
            lemma_apply_duckers_skeleton(
                duckers.update(i, DuckerV { env: d2.env, gr: d2.gr, ..d }),
                buses.update(ti, BusV { l: l2, r: r2, ..buses[ti] }),
                i + 1,
            );
        }
    }
}

/// Runs every ducker over the bus accumulators; see `spec_apply_duckers`.
#[verifier::rlimit(60)]
fn apply_all_duckers(duckers: &mut Vec<crate::engine::Ducker>, busacc: &mut Vec<BusAcc>, n: usize)
    requires
        buses_sized(old(busacc)@.map_values(|b: BusAcc| b@), n as nat),
    ensures
        ({
            let (d2, b2) = spec_apply_duckers(
                old(duckers)@.map_values(|d: crate::engine::Ducker| d@),
                old(busacc)@.map_values(|b: BusAcc| b@),
                0,
            );
            &&& final(duckers)@.map_values(|d: crate::engine::Ducker| d@) == d2
            &&& final(busacc)@.map_values(|b: BusAcc| b@) == b2
        }),
        buses_sized(final(busacc)@.map_values(|b: BusAcc| b@), n as nat),
{
    let ghost d0 = duckers@.map_values(|d: crate::engine::Ducker| d@);
    let ghost bv0 = busacc@.map_values(|b: BusAcc| b@);
    let dn = duckers.len();
    let mut di: usize = 0;
    while di < dn
        invariant
            di <= dn,
            dn == duckers@.len(),
            buses_sized(busacc@.map_values(|b: BusAcc| b@), n as nat),
            spec_apply_duckers(
                duckers@.map_values(|d: crate::engine::Ducker| d@),
                busacc@.map_values(|b: BusAcc| b@),
                di as int,
            ) == spec_apply_duckers(d0, bv0, 0),
        decreases dn - di,
    {
        let ghost db = duckers@.map_values(|d: crate::engine::Ducker| d@);
        let ghost bvb = busacc@.map_values(|b: BusAcc| b@);
        let ki_opt = find_bus(busacc, duckers[di].key_bus.as_str());
        let ti_opt = find_bus(busacc, duckers[di].target_bus.as_str());
        match (ki_opt, ti_opt) {
            (Some(ki), Some(tgi)) => {
                let key_l = copy_samples(&busacc[ki].l);
                let key_r = copy_samples(&busacc[ki].r);
                let mut drun = DuckRun {
                    threshold_db: duckers[di].threshold_db,
                    threshold_lin: duckers[di].threshold_lin,
                    ratio_comp: duckers[di].ratio_comp,
                    attack: duckers[di].attack,
                    release: duckers[di].release,
                    max_atten_db: duckers[di].max_atten_db,
                    makeup_lin: duckers[di].makeup_lin,
                    env: duckers[di].env,
                    gr: duckers[di].gr,
                };
                proof {
                    assert(drun == duckrun_of(db[di as int]));
                    assert(busacc@[tgi as int]@.l.len() == n);
                }
                duck_bus(&mut drun, &key_l, &key_r, &mut busacc[tgi]);
                duckers[di].env = drun.env;
                duckers[di].gr = drun.gr;
                proof {
                    let d = db[di as int];
                    let (d2, l2, r2) = spec_duck_bus(
                        duckrun_of(d),
                        bvb[ki as int].l,
                        bvb[ki as int].r,
                        bvb[tgi as int].l,
                        bvb[tgi as int].r,
                        0,
                    );
                    assert(duckers@.map_values(|dd: crate::engine::Ducker| dd@) =~= db.update(
                        di as int,
                        DuckerV { env: d2.env, gr: d2.gr, ..d },
                    ));
                    assert(busacc@.map_values(|b: BusAcc| b@) =~= bvb.update(
                        tgi as int,
                        BusV { l: l2, r: r2, ..bvb[tgi as int] },
                    ));
                    assert(spec_apply_duckers(db, bvb, di as int) == spec_apply_duckers(
                        duckers@.map_values(|dd: crate::engine::Ducker| dd@),
                        busacc@.map_values(|b: BusAcc| b@),
                        di + 1,
                    ));
                }
            },
            _ => {
                proof {
                    assert(spec_apply_duckers(db, bvb, di as int) == spec_apply_duckers(
                        db,
                        bvb,
                        di + 1,
                    ));
                }
            },
        }
        di = di + 1;
    }
}

/// Sums the bus accumulators; see `spec_mix`.
fn mix_buses(busacc: &Vec<BusAcc>, n: usize) -> (out: (Vec<i64>, Vec<i64>))
    requires
        buses_sized(busacc@.map_values(|b: BusAcc| b@), n as nat),
    ensures
        (out.0@, out.1@) == spec_mix(
            busacc@.map_values(|b: BusAcc| b@),
            spec_zero_seq(n as nat),
            spec_zero_seq(n as nat),
            0,
        ),
        out.0@.len() == n,
        out.1@.len() == n,
{
    let ghost bv = busacc@.map_values(|b: BusAcc| b@);
    let mut mix_l = zero_vec(n);
    let mut mix_r = zero_vec(n);
    let bn = busacc.len();
    let mut bi: usize = 0;
    while bi < bn
        invariant
            bi <= bn,
            bn == busacc@.len(),
            bv == busacc@.map_values(|b: BusAcc| b@),
            buses_sized(bv, n as nat),
            mix_l@.len() == n,
            mix_r@.len() == n,
            spec_mix(bv, mix_l@, mix_r@, bi as int) == spec_mix(
                bv,
                spec_zero_seq(n as nat),
                spec_zero_seq(n as nat),
                0,
            ),
        decreases bn - bi,
    {
        let ghost lb = mix_l@;
        let ghost rb = mix_r@;
        let mut f: usize = 0;
        while f < n
            invariant
                f <= n,
                bi < bn,
                bn == busacc@.len(),
                bv == busacc@.map_values(|b: BusAcc| b@),
                buses_sized(bv, n as nat),
                mix_l@.len() == n,
                mix_r@.len() == n,
                forall|k: int| 0 <= k < f ==> mix_l@[k] == spec_fx_add(lb[k], bv[bi as int].l[k]),
                forall|k: int| 0 <= k < f ==> mix_r@[k] == spec_fx_add(rb[k], bv[bi as int].r[k]),
                forall|k: int| f <= k < n ==> mix_l@[k] == lb[k],
                forall|k: int| f <= k < n ==> mix_r@[k] == rb[k],
            decreases n - f,
        {
            proof {
                assert(bv[bi as int].l.len() == n && bv[bi as int].r.len() == n);
                assert(busacc@[bi as int]@.l == bv[bi as int].l);
                assert(busacc@[bi as int]@.r == bv[bi as int].r);
            }
            let vl = mix_l[f];
            mix_l[f] = fx_add(vl, busacc[bi].l[f]);
            let vr = mix_r[f];
            mix_r[f] = fx_add(vr, busacc[bi].r[f]);
            f = f + 1;
        }
        proof {
            let b = bv[bi as int];
            assert(mix_l@ =~= Seq::new(lb.len(), |k: int| spec_fx_add(lb[k], sample_at(b.l, k))));
            assert(mix_r@ =~= Seq::new(rb.len(), |k: int| spec_fx_add(rb[k], sample_at(b.r, k))));
        }
        bi = bi + 1;
    }
    (mix_l, mix_r)
}

/// The ids of the tracks a block stopped: playing before, not playing
/// after.  One entry per track, in track order — a `LoopMode::Once` track
/// that reaches its end is reported in the block where it stopped and, its
/// `playing` flag now false, never again.
pub open spec fn spec_ended_tracks(before: Seq<TrackV>, after: Seq<TrackV>, i: int) -> Seq<
    Seq<char>,
>
    decreases before.len() - i,
{
    if !(0 <= i < before.len()) || i >= after.len() {
        Seq::empty()
    } else {
        let rest = spec_ended_tracks(before, after, i + 1);
        if before[i].playing && !after[i].playing {
            seq![after[i].id] + rest
        } else {
            rest
        }
    }
}

proof fn lemma_render_tracks_len(
    tracks: Seq<TrackV>,
    assets: Seq<AssetV>,
    n: nat,
    buses: Seq<BusV>,
    i: int,
)
    ensures
        spec_render_tracks(tracks, assets, n, buses, i).0.len() == tracks.len(),
    decreases tracks.len() - i,
{
    if 0 <= i < tracks.len() {
        let t = tracks[i];
        let ai = first_match(asset_ids(assets), t.asset_id);
        if !t.playing || ai < 0 {
            lemma_render_tracks_len(tracks, assets, n, buses, i + 1);
        } else {
            let len_src = assets[ai].ch[0].len();
            let bi0 = first_match(bus_names(buses), t.bus);
            let buses1 = if bi0 >= 0 {
                buses
            } else {
                buses.push(BusV { name: t.bus, l: spec_zero_seq(n), r: spec_zero_seq(n) })
            };
            let bi = if bi0 >= 0 {
                bi0
            } else {
                buses.len() as int
            };
            let (c2, g2, l2, r2) = spec_render_track_into(
                spec_cursor_of(t, len_src as usize),
                t.step,
                ramp_of(t),
                t.pan_l,
                t.pan_r,
                assets,
                buses1[bi].l,
                buses1[bi].r,
                0,
            );
            lemma_render_tracks_len(
                tracks.update(i, spec_apply_cursor(t, c2, g2)),
                assets,
                n,
                buses1.update(bi, BusV { l: l2, r: r2, ..buses1[bi] }),
                i + 1,
            );
        }
    }
}

impl Engine {
    /// Renders the next block: fills the first `min(out_l.len(),
    /// out_r.len())` frames of both buffers with the mixed, ducked output of
    /// every playing track, and returns that count together with the ids of
    /// the tracks that reached their end and stopped during this block (the
    /// "track ended" events owed to the host).  Entries past the count are
    /// untouched.
    pub fn engine_process_into(&mut self, out_l: &mut Vec<i64>, out_r: &mut Vec<i64>) -> (r: (
        usize,
        Vec<String>,
    ))
        requires
            old(self)@.wf(),
        ensures
            r.0 == if old(out_l)@.len() <= old(out_r)@.len() {
                old(out_l)@.len()
            } else {
                old(out_r)@.len()
            },
            final(out_l)@.len() == old(out_l)@.len(),
            final(out_r)@.len() == old(out_r)@.len(),
            ({
                let n = r.0;
                let (e2, ol, orr) = spec_process(old(self)@, n as nat);
                &&& final(self)@ == e2
                &&& final(out_l)@.subrange(0, n as int) == ol
                &&& final(out_r)@.subrange(0, n as int) == orr
                &&& final(out_l)@.subrange(n as int, final(out_l)@.len() as int) == old(
                    out_l,
                )@.subrange(n as int, old(out_l)@.len() as int)
                &&& final(out_r)@.subrange(n as int, final(out_r)@.len() as int) == old(
                    out_r,
                )@.subrange(n as int, old(out_r)@.len() as int)
            }),
            r.1@.map_values(|s: String| s@) == spec_ended_tracks(
                old(self)@.tracks,
                final(self)@.tracks,
                0,
            ),
            final(self)@.wf(),
    {
        let n = if out_l.len() <= out_r.len() {
            out_l.len()
        } else {
            out_r.len()
        };
        let ghost before = old(self)@.tracks;
        let tn = self.tracks.len();
        let mut was_playing: Vec<bool> = Vec::new();
        let mut ti: usize = 0;
        while ti < tn
            invariant
                ti <= tn,
                tn == self.tracks@.len(),
                self@ == old(self)@,
                before == self@.tracks,
                was_playing@.len() == ti,
                forall|k: int| 0 <= k < ti ==> was_playing@[k] == before[k].playing,
            decreases tn - ti,
        {
            was_playing.push(self.tracks[ti].playing);
            ti = ti + 1;
        }
        let mut busacc: Vec<BusAcc> = Vec::new();
        proof {
            assert(assets_wf(old(self)@.assets));
            assert(old(self)@.assets == self.assets@.map_values(|a: Asset| a@));
            assert(buses_sized(busacc@.map_values(|b: BusAcc| b@), n as nat));
            assert(busacc@.map_values(|b: BusAcc| b@) =~= Seq::<BusV>::empty());
        }
        render_all_tracks(&self.assets, &mut self.tracks, &mut busacc, n);
        apply_all_duckers(&mut self.duckers, &mut busacc, n);
        apply_all_bus_gains(&mut self.bus_gains, &mut busacc, n);
        let (mix_l, mix_r) = mix_buses(&busacc, n);
        let mut i: usize = 0;
        while i < n
            invariant
                i <= n,
                n <= out_l@.len(),
                n <= out_r@.len(),
                out_l@.len() == old(out_l)@.len(),
                out_r@.len() == old(out_r)@.len(),
                mix_l@.len() == n,
                mix_r@.len() == n,
                forall|k: int| 0 <= k < i ==> out_l@[k] == mix_l@[k],
                forall|k: int| 0 <= k < i ==> out_r@[k] == mix_r@[k],
                forall|k: int| i <= k < out_l@.len() ==> out_l@[k] == old(out_l)@[k],
                forall|k: int| i <= k < out_r@.len() ==> out_r@[k] == old(out_r)@[k],
            decreases n - i,
        {
            out_l[i] = mix_l[i];
            out_r[i] = mix_r[i];
            i = i + 1;
        }
        proof {
            let (e2, ol, orr) = spec_process(old(self)@, n as nat);
            assert(mix_l@ == ol);
            assert(mix_r@ == orr);
            assert(out_l@.subrange(0, n as int) =~= mix_l@);
            assert(out_r@.subrange(0, n as int) =~= mix_r@);
            assert(out_l@.subrange(n as int, out_l@.len() as int) =~= old(out_l)@.subrange(
                n as int,
                old(out_l)@.len() as int,
            ));
            assert(out_r@.subrange(n as int, out_r@.len() as int) =~= old(out_r)@.subrange(
                n as int,
                old(out_r)@.len() as int,
            ));
            assert(self@ =~= e2);
            lemma_apply_duckers_skeleton(
                old(self)@.duckers,
                spec_render_tracks(
                    old(self)@.tracks,
                    old(self)@.assets,
                    n as nat,
                    Seq::empty(),
                    0,
                ).1,
                0,
            );
            lemma_render_tracks_len(
                old(self)@.tracks,
                old(self)@.assets,
                n as nat,
                Seq::empty(),
                0,
            );
        }
        let ghost after = self@.tracks;
        let mut ended: Vec<String> = Vec::new();
        let mut ei: usize = 0;
        while ei < tn
            invariant
                ei <= tn,
                tn == self.tracks@.len(),
                after == self@.tracks,
                before.len() == tn,
                after.len() == tn,
                was_playing@.len() == tn,
                forall|k: int| 0 <= k < tn ==> was_playing@[k] == before[k].playing,
                ended@.map_values(|s: String| s@) + spec_ended_tracks(before, after, ei as int)
                    =~= spec_ended_tracks(before, after, 0),
            decreases tn - ei,
        {
            let ghost eb = ended@.map_values(|s: String| s@);
            if was_playing[ei] && !self.tracks[ei].playing {
                ended.push(self.tracks[ei].id.clone());
                proof {
                    assert(ended@.map_values(|s: String| s@) =~= eb.push(after[ei as int].id));
                    assert(spec_ended_tracks(before, after, ei as int) =~= seq![
                        after[ei as int].id,
                    ] + spec_ended_tracks(before, after, ei + 1));
                    assert(ended@.map_values(|s: String| s@) + spec_ended_tracks(
                        before,
                        after,
                        ei + 1,
                    ) =~= eb + spec_ended_tracks(before, after, ei as int));
                }
            } else {
                proof {
                    assert(spec_ended_tracks(before, after, ei as int) == spec_ended_tracks(
                        before,
                        after,
                        ei + 1,
                    ));
                }
            }
            ei = ei + 1;
        }
        proof {
            assert(spec_ended_tracks(before, after, tn as int) =~= Seq::<Seq<char>>::empty());
            assert(ended@.map_values(|s: String| s@) =~= spec_ended_tracks(before, after, 0));
        }
        (n, ended)
    }
}

} // verus!
