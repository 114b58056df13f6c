//! Engine-level laws, stated over the spec functions that the public
//! operations' contracts use.

use vstd::prelude::*;

use crate::engine::{
    asset_ids, ducker_targets, first_match, lemma_first_match, spec_loop_cfg, spec_pan_coeffs,
    spec_set_ducker, spec_transition, track_ids, DuckerV, EngineV, PendingSwitchV, TrackV,
};
use crate::fx::{spec_fx_add, spec_fx_mul, spec_fx_sub, FX_ONE, HALF_PI, QUARTER_PI};
use crate::render::{
    assets_wf, sample_at, spec_apply_duckers, spec_cur_len, spec_frame, spec_lend,
    spec_marker_switch, spec_mix, spec_process, spec_render_track_into, spec_render_tracks,
    spec_zero_seq, BusV, CursorV,
};

verus! {

proof fn lemma_duckers_skip_on_empty(duckers: Seq<DuckerV>, i: int)
    ensures
        spec_apply_duckers(duckers, Seq::<BusV>::empty(), i) == (duckers, Seq::<BusV>::empty()),
    decreases duckers.len() - i,
{
    if 0 <= i < duckers.len() {
        let d = duckers[i];
        assert(crate::render::bus_names(Seq::<BusV>::empty()).len() == 0);
        assert(first_match(crate::render::bus_names(Seq::<BusV>::empty()), d.key_bus) == -1);
        lemma_duckers_skip_on_empty(duckers, i + 1);
    }
}

proof fn lemma_ramp_frames_flat(g: crate::engine::GainRamp, k: nat)
    ensures
        g.frames == 0 ==> crate::render::spec_ramp_frames(g, k) == g,
    decreases k,
{
    if k > 0 && g.frames == 0 {
        lemma_ramp_frames_flat(g, (k - 1) as nat);
    }
}

proof fn lemma_bus_gains_skip_on_empty(gains: Seq<crate::engine::BusGainV>, n: nat, i: int)
    requires
        forall|k: int| 0 <= k < gains.len() ==> (#[trigger] gains[k]).ramp.frames == 0,
    ensures
        crate::render::spec_apply_bus_gains(gains, Seq::<BusV>::empty(), n, i) == (
            gains,
            Seq::<BusV>::empty(),
        ),
    decreases gains.len() - i,
{
    if 0 <= i < gains.len() {
        let g = gains[i];
        assert(crate::render::bus_names(Seq::<BusV>::empty()).len() == 0);
        assert(first_match(crate::render::bus_names(Seq::<BusV>::empty()), g.name) == -1);
        lemma_ramp_frames_flat(g.ramp, n);
        assert(gains.update(
            i,
            crate::engine::BusGainV { ramp: crate::render::spec_ramp_frames(g.ramp, n), ..g },
        ) =~= gains);
        lemma_bus_gains_skip_on_empty(gains, n, i + 1);
    }
}

/// Silence when idle: an engine with no tracks — and no bus-gain ramp in
/// flight, as after start-up — renders a block of zeros, of exactly the
/// requested length, and is left unchanged.
pub proof fn lemma_silence_when_idle(e: EngineV, n: nat)
    requires
        e.tracks.len() == 0,
        forall|k: int| 0 <= k < e.bus_gains.len() ==> (#[trigger] e.bus_gains[k]).ramp.frames
            == 0,
    ensures
        ({
            let (e2, ol, orr) = spec_process(e, n);
            &&& e2 == e
            &&& ol.len() == n
            &&& orr.len() == n
            &&& forall|i: int| 0 <= i < n ==> ol[i] == 0i64
            &&& forall|i: int| 0 <= i < n ==> orr[i] == 0i64
        }),
{
    let (tracks2, buses) = spec_render_tracks(e.tracks, e.assets, n, Seq::empty(), 0);
    assert(tracks2 == e.tracks && buses =~= Seq::<BusV>::empty());
    lemma_duckers_skip_on_empty(e.duckers, 0);
    let (duckers2, buses2) = spec_apply_duckers(e.duckers, buses, 0);
    assert(duckers2 == e.duckers);
    lemma_bus_gains_skip_on_empty(e.bus_gains, n, 0);
    let (gains2, buses3) = crate::render::spec_apply_bus_gains(e.bus_gains, buses2, n, 0);
    assert(gains2 == e.bus_gains);
    let (ol, orr) = spec_mix(buses3, spec_zero_seq(n), spec_zero_seq(n), 0);
    assert(ol == spec_zero_seq(n) && orr == spec_zero_seq(n));
    let (e2, _, _) = spec_process(e, n);
    assert(e2 =~= e);
}

/// Equal power at centre: a centred pan position yields the same
/// coefficient on both sides, so a mono source is split symmetrically.
pub proof fn lemma_center_pan_symmetric()
    ensures
        spec_pan_coeffs(0).0 == spec_pan_coeffs(0).1,
{
    let angle = spec_fx_mul(spec_fx_add(0, FX_ONE), QUARTER_PI);
    assert(FX_ONE * QUARTER_PI == QUARTER_PI * 0x1_0000_0000) by (nonlinear_arith);
    vstd::arithmetic::div_mod::lemma_div_multiples_vanish(
        QUARTER_PI as int,
        0x1_0000_0000int,
    );
    assert(angle == QUARTER_PI);
    assert(spec_fx_sub(HALF_PI, angle) == QUARTER_PI);
}

/// Seamless wrap continuity: at a loop with start 0 and end `K`, the frame
/// rendered at source index `K - 1` carries the asset's sample `K - 1`, and
/// the next frame wraps and carries sample 0 — no zero or other filler is
/// inserted at the boundary.  Stated for a whole-sample cursor at unit
/// step.
pub proof fn lemma_seamless_wrap_continuity(
    c: CursorV,
    assets: Seq<crate::engine::AssetV>,
    k: nat,
)
    requires
        assets_wf(assets),
        c.cfg.mode is Seamless,
        c.cfg.start == 0,
        c.cfg.end == Some(k as usize),
        c.pending is None,
        c.pending_at is None,
        1 <= k < 0x1_0000_0000,
        0 <= first_match(asset_ids(assets), c.asset_id),
        c.len_src == assets[first_match(asset_ids(assets), c.asset_id)].ch[0].len(),
        k <= c.len_src,
        c.pos == k * 0x1_0000_0000,
    ensures
        ({
            let before = CursorV { pos: ((k - 1) * 0x1_0000_0000) as u64, ..c };
            let ch0 = assets[first_match(asset_ids(assets), c.asset_id)].ch[0];
            &&& spec_frame(before, 0x1_0000_0000u64, assets).1 == sample_at(ch0, k as int - 1)
            &&& spec_frame(c, 0x1_0000_0000u64, assets).1 == sample_at(ch0, 0)
        }),
{
    let ai = first_match(asset_ids(assets), c.asset_id);
    lemma_first_match(asset_ids(assets), c.asset_id);
    assert(0 <= ai < assets.len());
    assert(assets[ai].ch.len() >= 1);
    let ch0 = assets[ai].ch[0];
    let before = CursorV { pos: ((k - 1) * 0x1_0000_0000) as u64, ..c };

    assert(spec_marker_switch(before, assets) == before);
    assert(spec_marker_switch(c, assets) == c);

    vstd::arithmetic::div_mod::lemma_div_multiples_vanish((k - 1) as int, 0x1_0000_0000int);
    vstd::arithmetic::div_mod::lemma_div_multiples_vanish(k as int, 0x1_0000_0000int);
    assert((k - 1) * 0x1_0000_0000 == 0x1_0000_0000 * (k - 1)) by (nonlinear_arith);
    assert(k * 0x1_0000_0000 == 0x1_0000_0000 * (k as int)) by (nonlinear_arith);
    assert(before.pos / 0x1_0000_0000 == k - 1);
    assert(c.pos / 0x1_0000_0000 == k as u64);
    vstd::arithmetic::div_mod::lemma_mod_multiples_basic((k - 1) as int, 0x1_0000_0000int);
    vstd::arithmetic::div_mod::lemma_mod_multiples_basic(k as int, 0x1_0000_0000int);
    assert(before.pos % 0x1_0000_0000 == 0);
    assert(c.pos % 0x1_0000_0000 == 0);

    // the frame before the boundary: no wrap, sample k-1
    let lend = spec_lend(before.cfg, before.len_src as int);
    assert(lend == k);
    assert(crate::render::spec_boundary(before, assets) == before);
    assert(spec_cur_len(before, assets) == ch0.len());
    let s_before = crate::render::spec_fetch(before, assets);
    let s0b = sample_at(ch0, k as int - 1);
    let s1b = sample_at(ch0, 0);
    assert(s_before.0 == spec_fx_add(s0b, spec_fx_mul(spec_fx_sub(s1b, s0b), 0)));
    assert(spec_fx_mul(spec_fx_sub(s1b, s0b), 0) == 0);
    assert(spec_fx_add(s0b, 0) == s0b);
    assert(s_before.0 == sample_at(ch0, k as int - 1));
    assert(spec_frame(before, 0x1_0000_0000u64, assets).1 == sample_at(ch0, k as int - 1));

    // the boundary frame: wraps to the loop start, sample 0
    let cw = crate::render::spec_boundary(c, assets);
    assert(cw.pos == crate::engine::spec_u64_sat(
        0 * 0x1_0000_0000 + (c.pos - k * 0x1_0000_0000),
    ));
    assert(cw.pos == 0);
    assert(spec_cur_len(cw, assets) == ch0.len());
    let s_at = crate::render::spec_fetch(cw, assets);
    assert(s_at.0 == sample_at(ch0, 0));
    assert(spec_frame(c, 0x1_0000_0000u64, assets).1 == sample_at(ch0, 0));
}

/// Marker storage is deterministic: a strictly sorted sequence is fully
/// determined by the set of its members, so the `engine_set_markers`
/// contract (strictly sorted, same members as the input) pins the stored
/// markers exactly.
pub proof fn lemma_sorted_markers_determined(a: Seq<usize>, b: Seq<usize>)
    requires
        crate::engine::strictly_sorted(a),
        crate::engine::strictly_sorted(b),
        forall|y: usize| a.contains(y) <==> b.contains(y),
    ensures
        a =~= b,
    decreases a.len(),
{
    if a.len() == 0 {
        if b.len() > 0 {
            assert(b.contains(b[0]));
            assert(a.contains(b[0]));
        }
    } else {
        assert(a.contains(a[0]));
        assert(b.contains(a[0]));
        let i = choose|i: int| 0 <= i < b.len() && b[i] == a[0];
        assert(b.contains(b[0]));
        assert(a.contains(b[0]));
        let j = choose|j: int| 0 <= j < a.len() && a[j] == b[0];
        assert(b[0] <= b[i]);
        assert(a[0] <= a[j]);
        assert(a[0] == b[0]);
        let a1 = a.drop_first();
        let b1 = b.drop_first();
        assert forall|y: usize| a1.contains(y) implies b1.contains(y) by {
            let k = choose|k: int| 0 <= k < a1.len() && a1[k] == y;
            assert(a[k + 1] == y);
            assert(a.contains(y));
            assert(b.contains(y));
            let m = choose|m: int| 0 <= m < b.len() && b[m] == y;
            assert(a[0] < a[k + 1]);
            if m == 0 {
                assert(b[0] == y);
                assert(a[0] == y);
            } else {
                assert(b1[m - 1] == y);
            }
        }
        assert forall|y: usize| b1.contains(y) implies a1.contains(y) by {
            let k = choose|k: int| 0 <= k < b1.len() && b1[k] == y;
            assert(b[k + 1] == y);
            assert(b.contains(y));
            assert(a.contains(y));
            let m = choose|m: int| 0 <= m < a.len() && a[m] == y;
            assert(b[0] < b[k + 1]);
            if m == 0 {
                assert(a[0] == y);
                assert(b[0] == y);
            } else {
                assert(a1[m - 1] == y);
            }
        }
        assert forall|i2: int, j2: int| 0 <= i2 < j2 < a1.len() implies a1[i2] < a1[j2] by {
            assert(a[i2 + 1] < a[j2 + 1]);
        }
        assert forall|i2: int, j2: int| 0 <= i2 < j2 < b1.len() implies b1[i2] < b1[j2] by {
            assert(b[i2 + 1] < b[j2 + 1]);
        }
        lemma_sorted_markers_determined(a1, b1);
        assert forall|k: int| 0 <= k < a.len() implies a[k] == b[k] by {
            if k > 0 {
                assert(a1[k - 1] == b1[k - 1]);
            }
        }
    }
}

/// Seamless wrap continuity in the rendered accumulator: a block of two
/// frames that straddles the loop boundary adds the asset's sample `K - 1`
/// and then its sample 0 — each scaled by the same gain and pan — to the
/// bus, so the step between the two rendered frames is the step between
/// those two asset samples.  Stated for the left channel at unit step with
/// a settled gain ramp; the right channel is symmetric through the
/// right-sample fetch.
pub proof fn lemma_wrap_continuity_rendered(
    c: CursorV,
    assets: Seq<crate::engine::AssetV>,
    k: nat,
    g: crate::engine::GainRamp,
    pan_l: i64,
    pan_r: i64,
    l: Seq<i64>,
    r: Seq<i64>,
)
    requires
        assets_wf(assets),
        c.cfg.mode is Seamless,
        c.cfg.start == 0,
        c.cfg.end == Some(k as usize),
        c.pending is None,
        c.pending_at is None,
        1 <= k < 0x1_0000_0000,
        0 <= first_match(asset_ids(assets), c.asset_id),
        c.len_src == assets[first_match(asset_ids(assets), c.asset_id)].ch[0].len(),
        k <= c.len_src,
        c.pos == (k - 1) * 0x1_0000_0000,
        g.frames == 0,
        l.len() == 2,
        r.len() == 2,
    ensures
        ({
            let (c2, g2, l2, r2) = spec_render_track_into(
                c,
                0x1_0000_0000u64,
                g,
                pan_l,
                pan_r,
                assets,
                l,
                r,
                0,
            );
            let ch0 = assets[first_match(asset_ids(assets), c.asset_id)].ch[0];
            &&& l2[0] == spec_fx_add(
                l[0],
                spec_fx_mul(spec_fx_mul(sample_at(ch0, k as int - 1), g.gain), pan_l),
            )
            &&& l2[1] == spec_fx_add(
                l[1],
                spec_fx_mul(spec_fx_mul(sample_at(ch0, 0), g.gain), pan_l),
            )
        }),
{
    let ai = first_match(asset_ids(assets), c.asset_id);
    lemma_first_match(asset_ids(assets), c.asset_id);
    assert(0 <= ai < assets.len());
    assert(assets[ai].ch.len() >= 1);
    let ch0 = assets[ai].ch[0];
    let at_boundary = CursorV { pos: (k * 0x1_0000_0000) as u64, ..c };
    lemma_seamless_wrap_continuity(at_boundary, assets, k);

    // frame 0: the cursor sits on sample k-1 and advances onto the boundary
    vstd::arithmetic::div_mod::lemma_div_multiples_vanish((k - 1) as int, 0x1_0000_0000int);
    assert((k - 1) * 0x1_0000_0000 == 0x1_0000_0000 * (k - 1)) by (nonlinear_arith);
    assert(c.pos / 0x1_0000_0000 == k - 1);
    assert(spec_marker_switch(c, assets) == c);
    assert(crate::render::spec_boundary(c, assets) == c);
    let (c1, sl1, sr1, stopped1) = spec_frame(c, 0x1_0000_0000u64, assets);
    assert(!stopped1);
    assert(sl1 == spec_frame(c, 0x1_0000_0000u64, assets).1);
    assert(sl1 == sample_at(ch0, k as int - 1));
    assert(c.pos + 0x1_0000_0000 == k * 0x1_0000_0000);
    assert(c1 =~= at_boundary);

    // frame 1: the boundary frame wraps and carries sample 0
    let (cw, sl2, sr2, stopped2) = spec_frame(c1, 0x1_0000_0000u64, assets);
    assert(!stopped2) by {
        assert(c1.cfg.mode is Seamless);
    }
    assert(sl2 == sample_at(ch0, 0));

    // the ramp is settled, so both frames use the same gain
    assert(crate::engine::spec_ramp_step(g) == g);

    let l1 = l.update(0, spec_fx_add(l[0], spec_fx_mul(spec_fx_mul(sl1, g.gain), pan_l)));
    let r1 = r.update(0, spec_fx_add(r[0], spec_fx_mul(spec_fx_mul(sr1, g.gain), pan_r)));
    let l2f = l1.update(1, spec_fx_add(l1[1], spec_fx_mul(spec_fx_mul(sl2, g.gain), pan_l)));
    let r2f = r1.update(1, spec_fx_add(r1[1], spec_fx_mul(spec_fx_mul(sr2, g.gain), pan_r)));
    assert(spec_render_track_into(c, 0x1_0000_0000u64, g, pan_l, pan_r, assets, l, r, 0)
        == spec_render_track_into(c1, 0x1_0000_0000u64, g, pan_l, pan_r, assets, l1, r1, 1));
    assert(spec_render_track_into(c1, 0x1_0000_0000u64, g, pan_l, pan_r, assets, l1, r1, 1)
        == spec_render_track_into(cw, 0x1_0000_0000u64, g, pan_l, pan_r, assets, l2f, r2f, 2));
    assert(spec_render_track_into(cw, 0x1_0000_0000u64, g, pan_l, pan_r, assets, l2f, r2f, 2)
        == (cw, g, l2f, r2f));
    assert(l2f[0] == spec_fx_add(
        l[0],
        spec_fx_mul(spec_fx_mul(sample_at(ch0, k as int - 1), g.gain), pan_l),
    ));
    assert(l2f[1] == spec_fx_add(
        l[1],
        spec_fx_mul(spec_fx_mul(sample_at(ch0, 0), g.gain), pan_l),
    ));
}

/// Seamless wrap continuity at the engine's output: for an engine whose
/// one playing track sits a frame before its loop boundary — unit step,
/// settled gain, no duckers, no bus gains — a two-frame block puts the
/// asset's sample `K - 1` and then its sample 0 on the left output, each
/// scaled by the track's gain and pan, so the output steps exactly as the
/// asset does across the wrap.
pub proof fn lemma_wrap_continuity_process(e: EngineV, k: nat)
    requires
        e.wf(),
        e.tracks.len() == 1,
        e.duckers.len() == 0,
        e.bus_gains.len() == 0,
        e.tracks[0].playing,
        e.tracks[0].step == 0x1_0000_0000,
        e.tracks[0].gain_frames == 0,
        e.tracks[0].loop_cfg.mode is Seamless,
        e.tracks[0].loop_cfg.start == 0,
        e.tracks[0].loop_cfg.end == Some(k as usize),
        e.tracks[0].pending_switch is None,
        e.tracks[0].pending_switch_at is None,
        1 <= k < 0x1_0000_0000,
        0 <= first_match(asset_ids(e.assets), e.tracks[0].asset_id),
        k <= assets_ch0_len(e),
        assets_ch0_len(e) <= usize::MAX as int,
        e.tracks[0].pos == (k - 1) * 0x1_0000_0000,
    ensures
        ({
            let (e2, ol, orr) = spec_process(e, 2);
            let t = e.tracks[0];
            let ch0 = e.assets[first_match(asset_ids(e.assets), t.asset_id)].ch[0];
            &&& ol.len() == 2
            &&& ol[0] == spec_fx_mul(
                spec_fx_mul(sample_at(ch0, k as int - 1), t.gain),
                t.pan_l,
            )
            &&& ol[1] == spec_fx_mul(spec_fx_mul(sample_at(ch0, 0), t.gain), t.pan_l)
        }),
{
    let t = e.tracks[0];
    let ai = first_match(asset_ids(e.assets), t.asset_id);
    lemma_first_match(asset_ids(e.assets), t.asset_id);
    assert(0 <= ai < e.assets.len());
    assert(e.assets[ai].ch.len() >= 1);
    let ch0 = e.assets[ai].ch[0];
    let len_src = ch0.len();
    assert(len_src <= usize::MAX);
    assert((len_src as usize) as int == len_src as int);

    // the track pass: one track, one fresh bus
    assert(crate::render::bus_names(Seq::<BusV>::empty()).len() == 0);
    assert(first_match(crate::render::bus_names(Seq::<BusV>::empty()), t.bus) == -1);
    let buses1 = Seq::<BusV>::empty().push(
        BusV { name: t.bus, l: spec_zero_seq(2), r: spec_zero_seq(2) },
    );
    let c0 = crate::render::spec_cursor_of(t, len_src as usize);
    let g0 = crate::render::ramp_of(t);
    lemma_wrap_continuity_rendered(c0, e.assets, k, g0, t.pan_l, t.pan_r, spec_zero_seq(2), spec_zero_seq(2));
    let (c2, g2, l2, r2) = spec_render_track_into(
        c0,
        0x1_0000_0000u64,
        g0,
        t.pan_l,
        t.pan_r,
        e.assets,
        spec_zero_seq(2),
        spec_zero_seq(2),
        0,
    );
    let contrib0 = spec_fx_mul(spec_fx_mul(sample_at(ch0, k as int - 1), t.gain), t.pan_l);
    let contrib1 = spec_fx_mul(spec_fx_mul(sample_at(ch0, 0), t.gain), t.pan_l);
    assert(l2[0] == spec_fx_add(0i64, contrib0));
    assert(l2[1] == spec_fx_add(0i64, contrib1));
    assert(spec_fx_add(0i64, contrib0) == contrib0);
    assert(spec_fx_add(0i64, contrib1) == contrib1);
    crate::render::lemma_render_track_into_len(
        c0,
        0x1_0000_0000u64,
        g0,
        t.pan_l,
        t.pan_r,
        e.assets,
        spec_zero_seq(2),
        spec_zero_seq(2),
        0,
    );
    assert(l2.len() == 2 && r2.len() == 2);
    let tracks2 = e.tracks.update(0, crate::render::spec_apply_cursor(t, c2, g2));
    let buses2 = buses1.update(0, BusV { l: l2, r: r2, ..buses1[0] });
    assert(spec_render_tracks(e.tracks, e.assets, 2, Seq::empty(), 0) == spec_render_tracks(
        tracks2,
        e.assets,
        2,
        buses2,
        1,
    ));
    assert(spec_render_tracks(tracks2, e.assets, 2, buses2, 1) == (tracks2, buses2));

    // no duckers, no bus gains: both stages leave the bus alone
    assert(spec_apply_duckers(e.duckers, buses2, 0) == (e.duckers, buses2));
    assert(crate::render::spec_apply_bus_gains(e.bus_gains, buses2, 2, 0) == (
        e.bus_gains,
        buses2,
    ));

    // the master mix of the single bus onto zeroed outputs
    let z = spec_zero_seq(2);
    let ol2 = Seq::new(z.len(), |m: int| spec_fx_add(z[m], sample_at(buses2[0].l, m)));
    let or2 = Seq::new(z.len(), |m: int| spec_fx_add(z[m], sample_at(buses2[0].r, m)));
    assert(spec_mix(buses2, z, z, 0) == spec_mix(buses2, ol2, or2, 1));
    assert(spec_mix(buses2, ol2, or2, 1) == (ol2, or2));
    assert(ol2[0] == spec_fx_add(0i64, l2[0]));
    assert(ol2[1] == spec_fx_add(0i64, l2[1]));
    assert(spec_fx_add(0i64, l2[0]) == l2[0]);
    assert(spec_fx_add(0i64, l2[1]) == l2[1]);
}

/// Boundary blend at the engine's output: for an engine whose one playing
/// track declares a crossfade loop ending at `K`, holds a pending switch
/// to a known asset, and sits halfway through source sample `K - 1`, a
/// one-frame block puts the blend of the outgoing sample `K - 1` and the
/// incoming asset's loop-start sample on the left output, scaled by the
/// track's gain and pan.
pub proof fn lemma_boundary_blend_process(e: EngineV, k: nat)
    requires
        e.wf(),
        e.tracks.len() == 1,
        e.duckers.len() == 0,
        e.bus_gains.len() == 0,
        e.tracks[0].playing,
        e.tracks[0].step == 0x1_0000_0000,
        e.tracks[0].gain_frames == 0,
        e.tracks[0].loop_cfg.mode is Xfade,
        e.tracks[0].loop_cfg.end == Some(k as usize),
        e.tracks[0].pending_switch is Some,
        e.tracks[0].pending_switch_at is None,
        1 <= k < 0x1_0000_0000,
        0 <= first_match(asset_ids(e.assets), e.tracks[0].asset_id),
        k <= assets_ch0_len(e),
        assets_ch0_len(e) <= usize::MAX as int,
        0 <= first_match(asset_ids(e.assets), e.tracks[0].pending_switch->0.to_asset),
        e.tracks[0].pos == (k - 1) * 0x1_0000_0000 + 0x8000_0000,
    ensures
        ({
            let (e2, ol, orr) = spec_process(e, 1);
            let t = e.tracks[0];
            let ch0 = e.assets[first_match(asset_ids(e.assets), t.asset_id)].ch[0];
            let ps = t.pending_switch->0;
            let nch0 = e.assets[first_match(asset_ids(e.assets), ps.to_asset)].ch[0];
            let s0 = sample_at(ch0, k as int - 1);
            let s1 = sample_at(nch0, ps.cfg.start as int);
            let blend = spec_fx_add(s0, spec_fx_mul(spec_fx_sub(s1, s0), 0x8000_0000));
            &&& ol.len() == 1
            &&& ol[0] == spec_fx_mul(spec_fx_mul(blend, t.gain), t.pan_l)
        }),
{
    let t = e.tracks[0];
    let ai = first_match(asset_ids(e.assets), t.asset_id);
    lemma_first_match(asset_ids(e.assets), t.asset_id);
    assert(0 <= ai < e.assets.len());
    assert(e.assets[ai].ch.len() >= 1);
    let ch0 = e.assets[ai].ch[0];
    let len_src = ch0.len();
    assert(len_src <= usize::MAX);
    assert((len_src as usize) as int == len_src as int);

    assert(crate::render::bus_names(Seq::<BusV>::empty()).len() == 0);
    assert(first_match(crate::render::bus_names(Seq::<BusV>::empty()), t.bus) == -1);
    let buses1 = Seq::<BusV>::empty().push(
        BusV { name: t.bus, l: spec_zero_seq(1), r: spec_zero_seq(1) },
    );
    let c0 = crate::render::spec_cursor_of(t, len_src as usize);
    let g0 = crate::render::ramp_of(t);
    lemma_boundary_blend_into_pending(c0, e.assets, k);
    let ps = t.pending_switch->0;
    let nai = first_match(asset_ids(e.assets), ps.to_asset);
    let s0 = sample_at(ch0, k as int - 1);
    let s1 = sample_at(e.assets[nai].ch[0], ps.cfg.start as int);
    let blend = spec_fx_add(s0, spec_fx_mul(spec_fx_sub(s1, s0), 0x8000_0000));
    let (c1, sl1, sr1, stopped1) = spec_frame(c0, 0x1_0000_0000u64, e.assets);
    assert(!stopped1) by {
        assert(c0.cfg.mode is Xfade);
        assert(crate::render::spec_boundary(crate::render::spec_marker_switch(c0, e.assets), e.assets).cfg
            == c0.cfg) by {
            assert(crate::render::spec_marker_switch(c0, e.assets) == c0);
            let idx = c0.pos / 0x1_0000_0000;
            vstd::arithmetic::div_mod::lemma_fundamental_div_mod_converse(
                c0.pos as int,
                0x1_0000_0000int,
                (k - 1) as int,
                0x8000_0000int,
            );
            assert(idx == k - 1);
            assert(crate::render::spec_boundary(c0, e.assets) == c0);
        }
    }
    assert(sl1 == blend);
    assert(crate::engine::spec_ramp_step(g0) == g0);
    let z = spec_zero_seq(1);
    let l1 = z.update(0, spec_fx_add(z[0], spec_fx_mul(spec_fx_mul(sl1, g0.gain), t.pan_l)));
    let r1 = z.update(0, spec_fx_add(z[0], spec_fx_mul(spec_fx_mul(sr1, g0.gain), t.pan_r)));
    assert(spec_render_track_into(c0, 0x1_0000_0000u64, g0, t.pan_l, t.pan_r, e.assets, z, z, 0)
        == spec_render_track_into(c1, 0x1_0000_0000u64, g0, t.pan_l, t.pan_r, e.assets, l1, r1, 1));
    assert(spec_render_track_into(c1, 0x1_0000_0000u64, g0, t.pan_l, t.pan_r, e.assets, l1, r1, 1)
        == (c1, g0, l1, r1));
    assert(l1[0] == spec_fx_add(0i64, spec_fx_mul(spec_fx_mul(blend, t.gain), t.pan_l)));
    assert(spec_fx_add(0i64, spec_fx_mul(spec_fx_mul(blend, t.gain), t.pan_l)) == spec_fx_mul(
        spec_fx_mul(blend, t.gain),
        t.pan_l,
    ));

    let tracks2 = e.tracks.update(0, crate::render::spec_apply_cursor(t, c1, g0));
    let buses2 = buses1.update(0, BusV { l: l1, r: r1, ..buses1[0] });
    assert(spec_render_tracks(e.tracks, e.assets, 1, Seq::empty(), 0) == spec_render_tracks(
        tracks2,
        e.assets,
        1,
        buses2,
        1,
    ));
    assert(spec_render_tracks(tracks2, e.assets, 1, buses2, 1) == (tracks2, buses2));
    assert(spec_apply_duckers(e.duckers, buses2, 0) == (e.duckers, buses2));
    assert(crate::render::spec_apply_bus_gains(e.bus_gains, buses2, 1, 0) == (
        e.bus_gains,
        buses2,
    ));
    let ol2 = Seq::new(z.len(), |m: int| spec_fx_add(z[m], sample_at(buses2[0].l, m)));
    let or2 = Seq::new(z.len(), |m: int| spec_fx_add(z[m], sample_at(buses2[0].r, m)));
    assert(spec_mix(buses2, z, z, 0) == spec_mix(buses2, ol2, or2, 1));
    assert(spec_mix(buses2, ol2, or2, 1) == (ol2, or2));
    assert(ol2[0] == spec_fx_add(0i64, l1[0]));
    assert(spec_fx_add(0i64, l1[0]) == l1[0]);
}

/// The first channel length of the asset the first track is bound to.
pub open spec fn assets_ch0_len(e: EngineV) -> int {
    e.assets[first_match(asset_ids(e.assets), e.tracks[0].asset_id)].ch[0].len() as int
}

/// Boundary blend into the incoming asset: on a crossfade-declared loop
/// with end `K` and a stored pending switch, the frame rendered halfway
/// through source sample `K - 1` interpolates between the outgoing asset's
/// sample `K - 1` and the incoming asset's loop-start sample.  (On a
/// seamless loop the wrap fetch takes precedence instead; see
/// `spec_fetch`.)
pub proof fn lemma_boundary_blend_into_pending(
    c: CursorV,
    assets: Seq<crate::engine::AssetV>,
    k: nat,
)
    requires
        assets_wf(assets),
        c.cfg.mode is Xfade,
        c.cfg.end == Some(k as usize),
        c.pending is Some,
        c.pending_at is None,
        1 <= k < 0x1_0000_0000,
        0 <= first_match(asset_ids(assets), c.asset_id),
        c.len_src == assets[first_match(asset_ids(assets), c.asset_id)].ch[0].len(),
        k <= c.len_src,
        0 <= first_match(asset_ids(assets), c.pending->0.to_asset),
        c.pos == (k - 1) * 0x1_0000_0000 + 0x8000_0000,
    ensures
        ({
            let ch0 = assets[first_match(asset_ids(assets), c.asset_id)].ch[0];
            let ps = c.pending->0;
            let nch0 = assets[first_match(asset_ids(assets), ps.to_asset)].ch[0];
            let s0 = sample_at(ch0, k as int - 1);
            let s1 = sample_at(nch0, ps.cfg.start as int);
            spec_frame(c, 0x1_0000_0000u64, assets).1 == spec_fx_add(
                s0,
                spec_fx_mul(spec_fx_sub(s1, s0), 0x8000_0000),
            )
        }),
{
    let ai = first_match(asset_ids(assets), c.asset_id);
    lemma_first_match(asset_ids(assets), c.asset_id);
    assert(0 <= ai < assets.len());
    assert(assets[ai].ch.len() >= 1);
    let ps = c.pending->0;
    let nai = first_match(asset_ids(assets), ps.to_asset);
    lemma_first_match(asset_ids(assets), ps.to_asset);
    assert(0 <= nai < assets.len());
    assert(assets[nai].ch.len() >= 1);

    assert(spec_marker_switch(c, assets) == c);

    vstd::arithmetic::div_mod::lemma_fundamental_div_mod_converse(
        c.pos as int,
        0x1_0000_0000int,
        (k - 1) as int,
        0x8000_0000int,
    );
    assert(c.pos / 0x1_0000_0000 == k - 1);
    assert(c.pos % 0x1_0000_0000 == 0x8000_0000);

    let lend = spec_lend(c.cfg, c.len_src as int);
    assert(lend == k);
    assert(crate::render::spec_boundary(c, assets) == c);
    assert(spec_cur_len(c, assets) == assets[ai].ch[0].len());
    let s_at = crate::render::spec_fetch(c, assets);
    let s0 = sample_at(assets[ai].ch[0], k as int - 1);
    let s1 = sample_at(assets[nai].ch[0], ps.cfg.start as int);
    assert(s_at.0 == spec_fx_add(s0, spec_fx_mul(spec_fx_sub(s1, s0), 0x8000_0000)));
    assert(spec_frame(c, 0x1_0000_0000u64, assets).1 == s_at.0);
}

/// At most one pending switch: a second deferred transition replaces the
/// first's payload; after both calls the track holds exactly the second's
/// asset and loop configuration as its pending switch.
pub proof fn lemma_transition_replaces_pending(
    e: EngineV,
    track_id: Seq<char>,
    to1: Seq<char>,
    mode1: Seq<char>,
    start1: u32,
    end1: i32,
    xf1: u32,
    to2: Seq<char>,
    mode2: Seq<char>,
    start2: u32,
    end2: i32,
    xf2: u32,
)
    requires
        spec_transition(e, track_id, "loopEnd"@, to1, mode1, start1, end1, xf1).1,
        spec_transition(
            spec_transition(e, track_id, "loopEnd"@, to1, mode1, start1, end1, xf1).0,
            track_id,
            "loopEnd"@,
            to2,
            mode2,
            start2,
            end2,
            xf2,
        ).1,
    ensures
        ({
            let e1 = spec_transition(e, track_id, "loopEnd"@, to1, mode1, start1, end1, xf1).0;
            let e2 = spec_transition(e1, track_id, "loopEnd"@, to2, mode2, start2, end2, xf2).0;
            let ti = first_match(track_ids(e1.tracks), track_id);
            let ai2 = first_match(asset_ids(e1.assets), to2);
            e2.tracks[ti].pending_switch == Some(
                PendingSwitchV {
                    to_asset: to2,
                    cfg: spec_loop_cfg(mode2, start2, end2, xf2, e1.assets[ai2].sr),
                },
            )
        }),
{
    reveal_strlit("now");
    reveal_strlit("loopEnd");
    assert("loopEnd"@.len() == 7);
    assert("now"@.len() == 3);
    assert("loopEnd"@ != "now"@);
    let e1 = spec_transition(e, track_id, "loopEnd"@, to1, mode1, start1, end1, xf1).0;
    let ti0 = first_match(track_ids(e.tracks), track_id);
    lemma_first_match(track_ids(e.tracks), track_id);
    assert(ti0 >= 0);
    assert(ti0 < e.tracks.len());
    assert(track_ids(e1.tracks) =~= track_ids(e.tracks));
    let ti = first_match(track_ids(e1.tracks), track_id);
    assert(ti == ti0);
    lemma_first_match(track_ids(e1.tracks), track_id);
    let ai2 = first_match(asset_ids(e1.assets), to2);
    lemma_first_match(asset_ids(e1.assets), to2);
    assert(ai2 >= 0);
    let cfg2 = spec_loop_cfg(mode2, start2, end2, xf2, e1.assets[ai2].sr);
    let e2 = spec_transition(e1, track_id, "loopEnd"@, to2, mode2, start2, end2, xf2).0;
    let t1 = e1.tracks[ti];
    assert(e2.tracks == e1.tracks.update(
        ti,
        TrackV {
            pending_switch: Some(PendingSwitchV { to_asset: to2, cfg: cfg2 }),
            pending_switch_at: None,
            ..t1
        },
    ));
    assert(e2.tracks[ti].pending_switch == Some(PendingSwitchV { to_asset: to2, cfg: cfg2 }));
}

/// Ducker idempotence on a target: installing a second ducker for the same
/// target bus leaves exactly one ducker for that target, and it is the
/// second one.
pub proof fn lemma_set_ducker_idempotent_target(e: EngineV, d1: DuckerV, d2: DuckerV)
    requires
        e.wf(),
        d1.target_bus == d2.target_bus,
    ensures
        ({
            let e2 = spec_set_ducker(spec_set_ducker(e, d1), d2);
            &&& e2.duckers.len() >= 1
            &&& e2.duckers.last() == d2
            &&& forall|k: int|
                0 <= k < e2.duckers.len() - 1 ==> (#[trigger] e2.duckers[k]).target_bus
                    != d2.target_bus
        }),
{
    let tb = d1.target_bus;
    let targets0 = ducker_targets(e.duckers);
    lemma_first_match(targets0, tb);
    let di1 = first_match(targets0, tb);
    let kept1 = if di1 >= 0 {
        e.duckers.remove(di1)
    } else {
        e.duckers
    };
    let e1 = spec_set_ducker(e, d1);
    assert(e1.duckers == kept1.push(d1));
    // kept1 holds no ducker for the target
    assert forall|k: int| 0 <= k < kept1.len() implies (#[trigger] kept1[k]).target_bus != tb by {
        if di1 == -1 {
            assert(targets0[k] == e.duckers[k].target_bus);
        } else {
            let ok = if k < di1 {
                k
            } else {
                k + 1
            };
            assert(kept1[k] == e.duckers[ok]);
            assert(targets0[ok] == e.duckers[ok].target_bus);
            if e.duckers[ok].target_bus == tb {
                assert(targets0[di1] == tb);
                assert(ok != di1);
                assert(e.duckers[di1].target_bus == e.duckers[ok].target_bus);
                assert(false);
            }
        }
    }
    // the second install finds d1 (the last element) and removes it
    let targets1 = ducker_targets(e1.duckers);
    lemma_first_match(targets1, tb);
    let di2 = first_match(targets1, tb);
    assert(targets1[kept1.len() as int] == tb);
    assert(di2 >= 0);
    assert(targets1[di2] == tb);
    if di2 < kept1.len() {
        assert(e1.duckers[di2] == kept1[di2]);
        assert(kept1[di2].target_bus == tb);
        assert(false);
    }
    assert(di2 == kept1.len());
    let kept2 = e1.duckers.remove(di2);
    assert(kept2 =~= kept1);
    let e2 = spec_set_ducker(e1, d2);
    assert(e2.duckers == kept1.push(d2));
    assert(e2.duckers.last() == d2);
}

} // verus!
