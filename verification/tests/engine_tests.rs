use sampo_core::engine::Engine;

const FX: f64 = 4294967296.0;

fn fx(v: f64) -> i64 {
    (v * FX).round() as i64
}

fn un(v: i64) -> f64 {
    (v as f64) / FX
}

fn ch(samples: &[f64]) -> Vec<i64> {
    samples.iter().map(|&s| fx(s)).collect()
}

fn render(e: &mut Engine, n: usize) -> (Vec<f64>, Vec<f64>) {
    let mut l = vec![0i64; n];
    let mut r = vec![0i64; n];
    let (written, _ended) = e.engine_process_into(&mut l, &mut r);
    assert_eq!(written, n);
    (
        l.iter().map(|&v| un(v)).collect(),
        r.iter().map(|&v| un(v)).collect(),
    )
}

const INV_SQRT2: f64 = std::f64::consts::FRAC_1_SQRT_2;

#[test]
fn silence_when_idle() {
    let mut e = Engine::new();
    e.engine_init(48000);
    let (l, r) = render(&mut e, 8);
    for i in 0..8 {
        assert_eq!(l[i], 0.0);
        assert_eq!(r[i], 0.0);
    }
}

#[test]
fn one_shot_playback_and_stop() {
    // a mono once-through asset renders its samples at centre pan, then stops
    let mut e = Engine::new();
    e.engine_init(48000);
    assert!(e.engine_register_asset("A", 48000, vec![ch(&[0.25, 0.5, 0.25, 0.0])]));
    assert!(e.engine_create_track("t", "A", 0, 0));
    assert!(e.engine_schedule_play("t", 0, "none", 0, -1, 0));
    let (l, r) = render(&mut e, 4);
    let expect = [0.25 * INV_SQRT2, 0.5 * INV_SQRT2, 0.25 * INV_SQRT2, 0.0];
    for i in 0..4 {
        assert!((l[i] - expect[i]).abs() < 1e-6, "l[{}] = {}", i, l[i]);
        assert!((r[i] - expect[i]).abs() < 1e-6, "r[{}] = {}", i, r[i]);
    }
    let (l2, r2) = render(&mut e, 4);
    for i in 0..4 {
        assert_eq!(l2[i], 0.0);
        assert_eq!(r2[i], 0.0);
    }
}

#[test]
fn register_asset_rejects_empty() {
    let mut e = Engine::new();
    e.engine_init(48000);
    assert!(!e.engine_register_asset("empty", 48000, vec![]));
    assert!(!e.engine_create_track("t", "empty", 0, 0));
}

#[test]
fn unknown_keys_fail() {
    let mut e = Engine::new();
    e.engine_init(48000);
    assert!(!e.engine_create_track("t", "missing", 0, 0));
    assert!(!e.engine_schedule_play("t", 0, "none", 0, -1, 0));
    assert!(!e.engine_set_loop("t", "none", 0, -1, 0));
    assert!(!e.engine_set_markers("t", vec![1, 2]));
    assert!(!e.engine_transition("t", "now", "missing", "none", 0, -1, 0));
}

#[test]
fn seamless_loop_repeats_the_window() {
    // loop over samples [1,2,3] of [1,2,3,4,5]: 1 2 3 2 3 2 3 2 3
    let mut e = Engine::new();
    e.engine_init(48000);
    assert!(e.engine_register_asset("B", 48000, vec![ch(&[1.0, 2.0, 3.0, 4.0, 5.0])]));
    assert!(e.engine_create_track("t", "B", 0, 0));
    assert!(e.engine_schedule_play("t", 0, "seamless", 1, 4, 0));
    // the loop window is [1, 4): after the head sample the samples 2, 3, 4
    // repeat, wrapping whenever the cursor reaches index 4
    let (l, _) = render(&mut e, 9);
    let expect = [1.0, 2.0, 3.0, 4.0, 2.0, 3.0, 4.0, 2.0, 3.0];
    for i in 0..9 {
        assert!(
            (l[i] - expect[i] * INV_SQRT2).abs() < 1e-6,
            "frame {}: {} vs {}",
            i,
            l[i],
            expect[i] * INV_SQRT2
        );
    }
}

#[test]
fn seamless_wrap_keeps_continuity() {
    // loop start 0 end 3: across the boundary the output steps by the same
    // amount as the asset steps from its last looped sample to its first
    let mut e = Engine::new();
    e.engine_init(48000);
    let a = [0.5, 0.25, 0.75, 0.9];
    assert!(e.engine_register_asset("A", 48000, vec![ch(&a)]));
    assert!(e.engine_create_track("t", "A", 0, 0));
    assert!(e.engine_schedule_play("t", 0, "seamless", 0, 3, 0));
    let (l, _) = render(&mut e, 6);
    let out_diff = l[3] - l[2];
    let asset_diff = (a[0] - a[2]) * INV_SQRT2;
    assert!((out_diff - asset_diff).abs() < 1e-6);
    // and the boundary frame is sample 0 again, not silence
    assert!((l[3] - a[0] * INV_SQRT2).abs() < 1e-6);
}

#[test]
fn linear_interpolation_at_half_rate() {
    // a 24 kHz asset in a 48 kHz engine advances half a sample per frame
    let mut e = Engine::new();
    e.engine_init(48000);
    assert!(e.engine_register_asset("C", 24000, vec![ch(&[0.0, 1.0, 0.0, -1.0])]));
    assert!(e.engine_create_track("t", "C", 0, 0));
    assert_eq!(e.tracks[0].step, 0x8000_0000u64);
    assert!(e.engine_schedule_play("t", 0, "none", 0, -1, 0));
    let (l, _) = render(&mut e, 4);
    let expect = [0.0, 0.5, 1.0, 0.5];
    for i in 0..4 {
        assert!(
            (l[i] - expect[i] * INV_SQRT2).abs() < 1e-6,
            "frame {}: {}",
            i,
            l[i]
        );
    }
}

#[test]
fn equal_power_center_pan() {
    // unit amplitude, centre pan, 0 dB: energy is preserved per frame
    let mut e = Engine::new();
    e.engine_init(48000);
    assert!(e.engine_register_asset("one", 48000, vec![ch(&[1.0, 1.0, 1.0])]));
    assert!(e.engine_create_track("t", "one", 0, 0));
    assert!(e.engine_schedule_play("t", 0, "seamless", 0, -1, 0));
    let (l, r) = render(&mut e, 2);
    for i in 0..2 {
        let energy = l[i] * l[i] + r[i] * r[i];
        assert!((energy - 1.0).abs() < 1e-6, "energy {}", energy);
        assert_eq!(l[i], r[i]);
    }
}

#[test]
fn markers_sorted_deduplicated() {
    let mut e = Engine::new();
    e.engine_init(48000);
    assert!(e.engine_register_asset("A", 48000, vec![ch(&[0.0; 8])]));
    assert!(e.engine_create_track("t", "A", 0, 0));
    assert!(e.engine_set_markers("t", vec![3, 1, 1, 2]));
    assert_eq!(e.tracks[0].markers, vec![1, 2, 3]);
}

#[test]
fn transition_at_loop_end_switches_asset() {
    // loop end at sample 4: frame 3 still plays the old asset, frame 4 the
    // incoming one at its start
    let mut e = Engine::new();
    e.engine_init(48000);
    let old = [0.1, 0.2, 0.3, 0.4, 0.9];
    let new = [0.8, 0.7, 0.6, 0.5];
    assert!(e.engine_register_asset("old", 48000, vec![ch(&old)]));
    assert!(e.engine_register_asset("D", 48000, vec![ch(&new)]));
    assert!(e.engine_create_track("t", "old", 0, 0));
    assert!(e.engine_schedule_play("t", 0, "seamless", 0, 4, 0));
    assert!(e.engine_transition("t", "loopEnd", "D", "seamless", 0, -1, 0));
    let (l, _) = render(&mut e, 6);
    assert!((l[3] - old[3] * INV_SQRT2).abs() < 1e-6);
    assert!((l[4] - new[0] * INV_SQRT2).abs() < 1e-6);
    assert!((l[5] - new[1] * INV_SQRT2).abs() < 1e-6);
}

#[test]
fn transition_interpolates_into_the_new_asset() {
    // at half step on a crossfade-declared loop, position 3.5 blends the
    // old sample 3 with the incoming asset's first sample; on a seamless
    // loop the wrap fetch would take precedence instead
    let mut e = Engine::new();
    e.engine_init(48000);
    let old = [0.1, 0.2, 0.3, 0.4, 0.9];
    let new = [0.8, 0.7, 0.6, 0.5];
    assert!(e.engine_register_asset("old", 24000, vec![ch(&old)]));
    assert!(e.engine_register_asset("D", 24000, vec![ch(&new)]));
    assert!(e.engine_create_track("t", "old", 0, 0));
    assert!(e.engine_schedule_play("t", 0, "xfade", 0, 4, 0));
    assert!(e.engine_transition("t", "loopEnd", "D", "seamless", 0, -1, 0));
    let (l, _) = render(&mut e, 10);
    // frame 7 sits at source position 3.5
    let blend = (old[3] + new[0]) / 2.0 * INV_SQRT2;
    assert!((l[7] - blend).abs() < 1e-6, "frame 7: {} vs {}", l[7], blend);
    // frame 8 sits at 4.0 and is the new asset's first sample
    assert!((l[8] - new[0] * INV_SQRT2).abs() < 1e-6);
}

#[test]
fn seamless_wrap_fetch_wins_over_pending() {
    // on a seamless loop the boundary interpolation reads the loop start of
    // the old asset, and the switch itself lands on the next frame
    let mut e = Engine::new();
    e.engine_init(48000);
    let old = [0.1, 0.2, 0.3, 0.4, 0.9];
    let new = [0.8, 0.7, 0.6, 0.5];
    assert!(e.engine_register_asset("old", 24000, vec![ch(&old)]));
    assert!(e.engine_register_asset("D", 24000, vec![ch(&new)]));
    assert!(e.engine_create_track("t", "old", 0, 0));
    assert!(e.engine_schedule_play("t", 0, "seamless", 0, 4, 0));
    assert!(e.engine_transition("t", "loopEnd", "D", "seamless", 0, -1, 0));
    let (l, _) = render(&mut e, 10);
    let blend = (old[3] + old[0]) / 2.0 * INV_SQRT2;
    assert!((l[7] - blend).abs() < 1e-6, "frame 7: {} vs {}", l[7], blend);
    assert!((l[8] - new[0] * INV_SQRT2).abs() < 1e-6);
}

#[test]
fn second_transition_replaces_the_first() {
    let mut e = Engine::new();
    e.engine_init(48000);
    assert!(e.engine_register_asset("B", 48000, vec![ch(&[1.0, 1.0])]));
    assert!(e.engine_register_asset("D1", 48000, vec![ch(&[0.25, 0.25])]));
    assert!(e.engine_register_asset("D2", 48000, vec![ch(&[0.5, 0.5])]));
    assert!(e.engine_create_track("t", "B", 0, 0));
    assert!(e.engine_schedule_play("t", 0, "seamless", 0, 2, 0));
    assert!(e.engine_transition("t", "loopEnd", "D1", "seamless", 0, -1, 0));
    assert!(e.engine_transition("t", "loopEnd", "D2", "seamless", 0, -1, 0));
    let ps = e.tracks[0].pending_switch.as_ref().expect("pending switch");
    assert_eq!(ps.to_asset, "D2");
    let (l, _) = render(&mut e, 4);
    // after the boundary only the second asset is heard
    assert!((l[2] - 0.5 * INV_SQRT2).abs() < 1e-6);
    assert!((l[3] - 0.5 * INV_SQRT2).abs() < 1e-6);
}

#[test]
fn transition_to_marker_fires_at_marker() {
    let mut e = Engine::new();
    e.engine_init(48000);
    assert!(e.engine_register_asset("B", 48000, vec![ch(&[0.1, 0.1, 0.1, 0.1, 0.1, 0.1])]));
    assert!(e.engine_register_asset("D", 48000, vec![ch(&[0.9, 0.9])]));
    assert!(e.engine_create_track("t", "B", 0, 0));
    assert!(e.engine_set_markers("t", vec![2, 4]));
    assert!(e.engine_schedule_play("t", 0, "seamless", 0, -1, 0));
    assert!(e.engine_transition("t", "nextMarker", "D", "seamless", 0, -1, 0));
    assert_eq!(e.tracks[0].pending_switch_at, Some(2));
    let (l, _) = render(&mut e, 4);
    assert!((l[1] - 0.1 * INV_SQRT2).abs() < 1e-6);
    assert!((l[2] - 0.9 * INV_SQRT2).abs() < 1e-6);
}

#[test]
fn ducker_unique_per_target() {
    let mut e = Engine::new();
    e.engine_init(48000);
    e.engine_set_ducker("bgm", "voice", -30, 6, 15, 200, 12, 0);
    e.engine_set_ducker("bgm", "sfx", -20, 4, 10, 100, 6, 0);
    e.engine_set_ducker("ambient", "voice", -30, 6, 15, 200, 12, 0);
    assert_eq!(e.duckers.len(), 2);
    let for_bgm: Vec<_> = e.duckers.iter().filter(|d| d.target_bus == "bgm").collect();
    assert_eq!(for_bgm.len(), 1);
    assert_eq!(for_bgm[0].key_bus, "sfx");
}

#[test]
fn ducker_attenuates_and_recovers() {
    let mut e = Engine::new();
    e.engine_init(48000);
    // a steady 0 dB voice burst of 0.5 s, panned hard left
    assert!(e.engine_register_asset("burst", 48000, vec![ch(&vec![1.0; 24000])]));
    // silence that keeps the voice bus alive after the burst ends
    assert!(e.engine_register_asset("quiet", 48000, vec![ch(&[0.0, 0.0])]));
    // a steady 0 dB tone, panned hard right, looping forever
    assert!(e.engine_register_asset("tone", 48000, vec![ch(&[1.0, 1.0, 1.0, 1.0])]));
    assert!(e.engine_create_track_bus("v", "voice", "burst", -fx(1.0), 0));
    assert!(e.engine_create_track_bus("q", "voice", "quiet", 0, 0));
    assert!(e.engine_create_track_bus("b", "bgm", "tone", fx(1.0), 0));
    e.engine_set_ducker("bgm", "voice", -30, 6, 15, 200, 12, 0);
    assert!(e.engine_schedule_play("v", 0, "none", 0, -1, 0));
    assert!(e.engine_schedule_play("q", 0, "seamless", 0, -1, 0));
    assert!(e.engine_schedule_play("b", 0, "seamless", 0, -1, 0));
    // render 0.3 s: the attack (15 ms) has long settled
    let mut last_r = 0.0;
    for _ in 0..30 {
        let (_, r) = render(&mut e, 480);
        last_r = r[479];
    }
    let atten_db = -20.0 * last_r.abs().log10();
    assert!(
        11.9 < atten_db && atten_db < 12.001,
        "attenuation {} dB",
        atten_db
    );
    // the burst plays out at 0.5 s; the envelope must then fall below the
    // threshold and the gain reduction ease back to unity
    for _ in 0..170 {
        render(&mut e, 480);
    }
    let (_, r) = render(&mut e, 480);
    let recovered_db = -20.0 * r[479].abs().log10();
    assert!(
        recovered_db.abs() < 0.1,
        "gain reduction still {} dB",
        recovered_db
    );
}

#[test]
fn bus_accumulates_multiple_tracks() {
    let mut e = Engine::new();
    e.engine_init(48000);
    assert!(e.engine_register_asset("a", 48000, vec![ch(&[0.25, 0.25])]));
    assert!(e.engine_create_track("t1", "a", 0, 0));
    assert!(e.engine_create_track("t2", "a", 0, 0));
    assert!(e.engine_schedule_play("t1", 0, "seamless", 0, -1, 0));
    assert!(e.engine_schedule_play("t2", 0, "seamless", 0, -1, 0));
    let (l, _) = render(&mut e, 2);
    assert!((l[0] - 0.5 * INV_SQRT2).abs() < 1e-6);
}

#[test]
fn stereo_asset_keeps_channels_apart() {
    let mut e = Engine::new();
    e.engine_init(48000);
    assert!(e.engine_register_asset(
        "st",
        48000,
        vec![ch(&[0.5, 0.5]), ch(&[0.25, 0.25])]
    ));
    assert!(e.engine_create_track("t", "st", 0, 0));
    assert!(e.engine_schedule_play("t", 0, "seamless", 0, -1, 0));
    let (l, r) = render(&mut e, 2);
    assert!((l[0] - 0.5 * INV_SQRT2).abs() < 1e-6);
    assert!((r[0] - 0.25 * INV_SQRT2).abs() < 1e-6);
}

#[test]
fn gain_in_decibels() {
    let mut e = Engine::new();
    e.engine_init(48000);
    assert!(e.engine_register_asset("a", 48000, vec![ch(&[1.0, 1.0])]));
    assert!(e.engine_create_track("t", "a", 0, -6));
    assert!(e.engine_schedule_play("t", 0, "seamless", 0, -1, 0));
    let (l, _) = render(&mut e, 1);
    let expect = 10f64.powf(-6.0 / 20.0) * INV_SQRT2;
    assert!((l[0] - expect).abs() < 1e-6, "{} vs {}", l[0], expect);
}

#[test]
fn init_zero_defaults_to_48k() {
    let mut e = Engine::new();
    e.engine_init(0);
    assert_eq!(e.sr, 48000);
    e.engine_init(44100);
    assert_eq!(e.sr, 44100);
}

#[test]
fn xfade_mode_loops_like_seamless() {
    // crossfade looping is declared but rendered as a seamless wrap
    let mut e = Engine::new();
    e.engine_init(48000);
    assert!(e.engine_register_asset("B", 48000, vec![ch(&[1.0, 2.0, 3.0, 4.0, 5.0])]));
    assert!(e.engine_create_track("t", "B", 0, 0));
    assert!(e.engine_schedule_play("t", 0, "xfade", 1, 4, 100));
    // the crossfade length is converted from milliseconds at the asset rate
    assert_eq!(e.tracks[0].loop_cfg.xfade, 4800);
    let (l, _) = render(&mut e, 9);
    let expect = [1.0, 2.0, 3.0, 4.0, 2.0, 3.0, 4.0, 2.0, 3.0];
    for i in 0..9 {
        assert!((l[i] - expect[i] * INV_SQRT2).abs() < 1e-6, "frame {}", i);
    }
}

#[test]
fn marker_transition_degrades_without_marker() {
    // no marker past the cursor: the switch falls back to the loop boundary
    let mut e = Engine::new();
    e.engine_init(48000);
    assert!(e.engine_register_asset("B", 48000, vec![ch(&[0.1, 0.1, 0.1, 0.1])]));
    assert!(e.engine_register_asset("D", 48000, vec![ch(&[0.9, 0.9])]));
    assert!(e.engine_create_track("t", "B", 0, 0));
    assert!(e.engine_set_markers("t", vec![0]));
    assert!(e.engine_schedule_play("t", 2, "seamless", 0, -1, 0));
    assert!(e.engine_transition("t", "nextMarker", "D", "seamless", 0, -1, 0));
    assert_eq!(e.tracks[0].pending_switch_at, None);
    assert!(e.tracks[0].pending_switch.is_some());
    let (l, _) = render(&mut e, 4);
    // frames 0,1 play out the tail; the boundary then brings the new asset
    assert!((l[1] - 0.1 * INV_SQRT2).abs() < 1e-6);
    assert!((l[2] - 0.9 * INV_SQRT2).abs() < 1e-6);
}

#[test]
fn loop_end_clamped_to_asset_length() {
    // an end past the asset is treated as the asset length
    let mut e = Engine::new();
    e.engine_init(48000);
    assert!(e.engine_register_asset("B", 48000, vec![ch(&[0.2, 0.4, 0.6])]));
    assert!(e.engine_create_track("t", "B", 0, 0));
    assert!(e.engine_schedule_play("t", 0, "seamless", 0, 100, 0));
    let (l, _) = render(&mut e, 7);
    let expect = [0.2, 0.4, 0.6, 0.2, 0.4, 0.6, 0.2];
    for i in 0..7 {
        assert!((l[i] - expect[i] * INV_SQRT2).abs() < 1e-6, "frame {}", i);
    }
}

#[test]
fn transition_now_switches_immediately() {
    let mut e = Engine::new();
    e.engine_init(48000);
    assert!(e.engine_register_asset("B", 48000, vec![ch(&[0.1, 0.1])]));
    assert!(e.engine_register_asset("D", 48000, vec![ch(&[0.9, 0.8])]));
    assert!(e.engine_create_track("t", "B", 0, 0));
    assert!(e.engine_schedule_play("t", 0, "seamless", 0, -1, 0));
    assert!(e.engine_transition("t", "now", "D", "seamless", 0, -1, 0));
    let (l, _) = render(&mut e, 2);
    assert!((l[0] - 0.9 * INV_SQRT2).abs() < 1e-6);
    assert!((l[1] - 0.8 * INV_SQRT2).abs() < 1e-6);
}

#[test]
fn track_ended_reported_exactly_once() {
    let mut e = Engine::new();
    e.engine_init(48000);
    assert!(e.engine_register_asset("A", 48000, vec![ch(&[0.25, 0.5, 0.25, 0.0])]));
    assert!(e.engine_register_asset("B", 48000, vec![ch(&[0.1, 0.1])]));
    assert!(e.engine_create_track("t", "A", 0, 0));
    assert!(e.engine_create_track("keeps", "B", 0, 0));
    assert!(e.engine_schedule_play("t", 0, "none", 0, -1, 0));
    assert!(e.engine_schedule_play("keeps", 0, "seamless", 0, -1, 0));
    let mut l = vec![0i64; 8];
    let mut r = vec![0i64; 8];
    // the once-through track reaches its end inside this block
    let (n, ended) = e.engine_process_into(&mut l, &mut r);
    assert_eq!(n, 8);
    assert_eq!(ended, vec!["t".to_string()]);
    // the looping track never ends, and the stopped one is not re-reported
    let (_, ended2) = e.engine_process_into(&mut l, &mut r);
    assert!(ended2.is_empty());
    // restarting lets it end again, reported anew
    assert!(e.engine_schedule_play("t", 0, "none", 0, -1, 0));
    let (_, ended3) = e.engine_process_into(&mut l, &mut r);
    assert_eq!(ended3, vec!["t".to_string()]);
}

#[test]
fn set_gain_ramps_a_track() {
    let mut e = Engine::new();
    e.engine_init(48000);
    assert!(e.engine_register_asset("a", 48000, vec![ch(&[1.0, 1.0, 1.0, 1.0])]));
    assert!(e.engine_create_track("t", "a", 0, 0));
    assert!(e.engine_schedule_play("t", 0, "seamless", 0, -1, 0));
    // an instantaneous change (ramp 0 ms clamps to one frame)
    assert!(e.engine_set_gain("track", "t", -6, 0));
    let (l, _) = render(&mut e, 2);
    let g6 = 10f64.powf(-6.0 / 20.0);
    assert!((l[0] - g6 * INV_SQRT2).abs() < 1e-6);
    assert!((l[1] - g6 * INV_SQRT2).abs() < 1e-6);
    // a linear ramp back to 0 dB over 1 ms = 48 frames
    assert!(e.engine_set_gain("track", "t", 0, 1));
    let (l2, _) = render(&mut e, 48);
    // halfway through, the amplitude sits midway between the two gains
    let mid = (g6 + (1.0 - g6) * 24.0 / 48.0) * INV_SQRT2;
    assert!((l2[23] - mid).abs() < 1e-4, "midpoint {} vs {}", l2[23], mid);
    // the last ramp frame lands on the target exactly
    assert!((l2[47] - INV_SQRT2).abs() < 1e-6);
    // and stays there afterwards
    let (l3, _) = render(&mut e, 2);
    assert!((l3[0] - INV_SQRT2).abs() < 1e-6);
}

#[test]
fn set_gain_unknown_track_or_scope_fails() {
    let mut e = Engine::new();
    e.engine_init(48000);
    assert!(!e.engine_set_gain("track", "missing", 0, 0));
    assert!(!e.engine_set_gain("master", "x", 0, 0));
    // a bus gain can always be installed; the bus may come later
    assert!(e.engine_set_gain("bus", "bgm", -6, 0));
    assert_eq!(e.bus_gains.len(), 1);
}

#[test]
fn bus_gain_scales_and_ramps() {
    let mut e = Engine::new();
    e.engine_init(48000);
    e.engine_create_bus("bgm", -6);
    assert!(e.engine_register_asset("tone", 48000, vec![ch(&[1.0, 1.0])]));
    assert!(e.engine_create_track_bus("t", "bgm", "tone", 0, 0));
    assert!(e.engine_schedule_play("t", 0, "seamless", 0, -1, 0));
    let g6 = 10f64.powf(-6.0 / 20.0);
    let (l, _) = render(&mut e, 2);
    assert!((l[0] - g6 * INV_SQRT2).abs() < 1e-6, "bus at -6 dB: {}", l[0]);
    // restore to 0 dB over 1 ms, as the ducking release does at block scale
    assert!(e.engine_set_gain("bus", "bgm", 0, 1));
    let (l2, _) = render(&mut e, 48);
    assert!((l2[47] - INV_SQRT2).abs() < 1e-6, "restored: {}", l2[47]);
    // a second bus is unaffected
    assert!(e.engine_register_asset("fx", 48000, vec![ch(&[0.5, 0.5])]));
    assert!(e.engine_create_track_bus("s", "sfx", "fx", 0, 0));
    assert!(e.engine_schedule_play("s", 0, "seamless", 0, -1, 0));
    let (l3, _) = render(&mut e, 1);
    assert!((l3[0] - (1.0 + 0.5) * INV_SQRT2).abs() < 1e-6);
}

#[test]
fn create_bus_replaces_same_name() {
    let mut e = Engine::new();
    e.engine_init(48000);
    e.engine_create_bus("bgm", -6);
    e.engine_create_bus("bgm", -12);
    assert_eq!(e.bus_gains.len(), 1);
    assert!(e.engine_register_asset("tone", 48000, vec![ch(&[1.0])]));
    assert!(e.engine_create_track_bus("t", "bgm", "tone", 0, 0));
    assert!(e.engine_schedule_play("t", 0, "seamless", 0, -1, 0));
    let (l, _) = render(&mut e, 1);
    let g12 = 10f64.powf(-12.0 / 20.0);
    assert!((l[0] - g12 * INV_SQRT2).abs() < 1e-6);
}
