use sampo_core::engine::LoopMode;
use sampo_core::orch::{Command, GainScope, LoopArg, Orchestrator, TransitionAt};

fn bus_of(c: &Command) -> &str {
    match c {
        Command::CreateBus { bus_id, .. } => bus_id,
        _ => panic!("not a createBus"),
    }
}

#[test]
fn init_emits_buses_and_duckers_once() {
    let mut o = Orchestrator::new();
    let cmds = o.audio_orch_init();
    assert_eq!(cmds.len(), 6);
    assert_eq!(bus_of(&cmds[0]), "bgm");
    assert_eq!(bus_of(&cmds[1]), "ambient");
    assert_eq!(bus_of(&cmds[2]), "sfx");
    assert_eq!(bus_of(&cmds[3]), "voice");
    for c in &cmds[0..4] {
        match c {
            Command::CreateBus { gain_db, .. } => assert_eq!(*gain_db, -6),
            _ => panic!("expected createBus"),
        }
    }
    match &cmds[4] {
        Command::SetDucker {
            target_bus_id,
            key_bus_id,
            threshold_db,
            ratio,
            attack_ms,
            release_ms,
            max_atten_db,
            makeup_db,
        } => {
            assert_eq!(target_bus_id, "bgm");
            assert_eq!(key_bus_id, "voice");
            assert_eq!(*threshold_db, -30);
            assert_eq!(*ratio, 6);
            assert_eq!(*attack_ms, 15);
            assert_eq!(*release_ms, 200);
            assert_eq!(*max_atten_db, 12);
            assert_eq!(*makeup_db, 0);
        },
        _ => panic!("expected setDucker"),
    }
    match &cmds[5] {
        Command::SetDucker { target_bus_id, .. } => assert_eq!(target_bus_id, "ambient"),
        _ => panic!("expected setDucker"),
    }
    let again = o.audio_orch_init();
    assert_eq!(again.len(), 0);
}

#[test]
fn start_bgm_creates_and_loops() {
    let mut o = Orchestrator::new();
    o.audio_orch_init();
    let cmds = o.audio_orch_start_bgm();
    assert_eq!(cmds.len(), 2);
    match &cmds[0] {
        Command::CreateTrack { track_id, bus_id, asset_id, gain_db, pan } => {
            assert_eq!(track_id, "bgm-root1");
            assert_eq!(bus_id, "bgm");
            assert_eq!(asset_id, "bgm_01");
            assert_eq!(*gain_db, 0);
            assert_eq!(*pan, 0);
        },
        _ => panic!("expected createTrack"),
    }
    match &cmds[1] {
        Command::SchedulePlay { track_id, loop_arg } => {
            assert_eq!(track_id, "bgm-root1");
            let l = loop_arg.expect("loop");
            assert_eq!(l.mode, LoopMode::Seamless);
            assert_eq!(l.start, 0);
            assert_eq!(l.end, None);
        },
        _ => panic!("expected schedulePlay"),
    }
    assert_eq!(o.active_bgm_track.as_deref(), Some("bgm-root1"));
}

#[test]
fn play_voice_uses_counter_and_latches_ducking() {
    let mut o = Orchestrator::new();
    let cmds = o.audio_orch_play_voice(None);
    assert_eq!(cmds.len(), 2);
    match &cmds[0] {
        Command::CreateTrack { track_id, bus_id, asset_id, .. } => {
            assert_eq!(track_id, "voice-0");
            assert_eq!(bus_id, "voice");
            assert_eq!(asset_id, "voice_03_start");
        },
        _ => panic!("expected createTrack"),
    }
    assert!(o.ducking);
    let cmds2 = o.audio_orch_play_voice(Some("voice_07_extra".to_string()));
    match &cmds2[0] {
        Command::CreateTrack { track_id, asset_id, .. } => {
            assert_eq!(track_id, "voice-1");
            assert_eq!(asset_id, "voice_07_extra");
        },
        _ => panic!("expected createTrack"),
    }
}

#[test]
fn geo_update_cold_crossfades_to_root1() {
    let mut o = Orchestrator::new();
    o.audio_orch_init();
    let cmds = o.audio_orch_on_geo_update(Some("root1"), &vec![]);
    assert_eq!(cmds.len(), 5);
    match &cmds[0] {
        Command::CreateTrack { track_id, bus_id, asset_id, gain_db, .. } => {
            assert_eq!(track_id, "bgm-root1");
            assert_eq!(bus_id, "bgm");
            assert_eq!(asset_id, "bgm_01");
            assert_eq!(*gain_db, -60);
        },
        _ => panic!("expected createTrack"),
    }
    match &cmds[2] {
        Command::SetGain { scope, id, gain_db, ramp_ms } => {
            assert!(matches!(scope, GainScope::Track));
            assert_eq!(id, "bgm-root1");
            assert_eq!(*gain_db, 0);
            assert_eq!(*ramp_ms, 300);
        },
        _ => panic!("expected setGain"),
    }
    match &cmds[3] {
        Command::SetGain { id, gain_db, ramp_ms, .. } => {
            assert_eq!(id, "bgm-root2");
            assert_eq!(*gain_db, -60);
            assert_eq!(*ramp_ms, 300);
        },
        _ => panic!("expected setGain"),
    }
    match &cmds[4] {
        Command::SetGain { id, .. } => assert_eq!(id, "bgm-root3"),
        _ => panic!("expected setGain"),
    }
    assert_eq!(o.active_bgm_track.as_deref(), Some("bgm-root1"));
    assert_eq!(o.last_road.as_deref(), Some("root1"));
    // the same road again changes nothing
    let cmds2 = o.audio_orch_on_geo_update(Some("root1"), &vec![]);
    assert_eq!(cmds2.len(), 0);
}

#[test]
fn geo_update_start_area_fires_voice_once() {
    let mut o = Orchestrator::new();
    o.audio_orch_init();
    o.audio_orch_on_geo_update(Some("root1"), &vec![]);
    let cmds = o.audio_orch_on_geo_update(Some("root1"), &vec!["start".to_string()]);
    assert_eq!(cmds.len(), 2);
    match &cmds[0] {
        Command::CreateTrack { track_id, bus_id, asset_id, .. } => {
            assert!(track_id.starts_with("voice-"));
            assert_eq!(bus_id, "voice");
            assert_eq!(asset_id, "voice_03_start");
        },
        _ => panic!("expected createTrack"),
    }
    assert!(o.ducking);
    assert!(o.start_played);
    // the latch holds: entering the start area again is silent
    let cmds2 = o.audio_orch_on_geo_update(Some("root1"), &vec!["start".to_string()]);
    assert_eq!(cmds2.len(), 0);
}

#[test]
fn geo_update_goal_area_fires_its_voice() {
    let mut o = Orchestrator::new();
    o.audio_orch_init();
    let cmds = o.audio_orch_on_geo_update(None, &vec!["goal".to_string()]);
    assert_eq!(cmds.len(), 2);
    match &cmds[0] {
        Command::CreateTrack { asset_id, .. } => assert_eq!(asset_id, "voice_04_goal"),
        _ => panic!("expected createTrack"),
    }
    assert!(o.goal_played);
}

#[test]
fn root2_to_root1_transitions_at_loop_end() {
    let mut o = Orchestrator::new();
    o.audio_orch_init();
    o.audio_orch_on_geo_update(Some("root2"), &vec![]);
    assert_eq!(o.active_bgm_track.as_deref(), Some("bgm-root2"));
    let cmds = o.audio_orch_on_geo_update(Some("root1"), &vec![]);
    assert_eq!(cmds.len(), 1);
    match &cmds[0] {
        Command::Transition { track_id, at, to_asset_id, loop_arg } => {
            assert_eq!(track_id, "bgm-root2");
            assert!(matches!(at, TransitionAt::LoopEnd));
            assert_eq!(to_asset_id, "bgm_01");
            assert_eq!(loop_arg.mode, LoopMode::Seamless);
        },
        _ => panic!("expected transition"),
    }
}

#[test]
fn root3_transitions_when_active_and_plays_out_on_exit() {
    let mut o = Orchestrator::new();
    o.audio_orch_init();
    o.audio_orch_on_geo_update(Some("root1"), &vec![]);
    let into3 = o.audio_orch_on_geo_update(Some("root3"), &vec![]);
    assert_eq!(into3.len(), 1);
    match &into3[0] {
        Command::Transition { track_id, to_asset_id, .. } => {
            assert_eq!(track_id, "bgm-root1");
            assert_eq!(to_asset_id, "interactive_02");
        },
        _ => panic!("expected transition"),
    }
    // leaving root3 additionally lets the outgoing track play out: the
    // crossfade brings in bgm-root2, but the play-out is aimed at the
    // track that carried the music while on root3
    let out3 = o.audio_orch_on_geo_update(Some("root2"), &vec![]);
    let last = out3.last().expect("commands");
    match last {
        Command::SetLoop { track_id, loop_arg } => {
            assert_eq!(track_id, "bgm-root1");
            assert_eq!(loop_arg.mode, LoopMode::Once);
        },
        _ => panic!("expected setLoop, got another command"),
    }
    assert_eq!(o.active_bgm_track.as_deref(), Some("bgm-root2"));
}

#[test]
fn root3_cold_crossfades() {
    let mut o = Orchestrator::new();
    o.audio_orch_init();
    let cmds = o.audio_orch_on_geo_update(Some("root3"), &vec![]);
    assert_eq!(cmds.len(), 5);
    match &cmds[0] {
        Command::CreateTrack { track_id, asset_id, .. } => {
            assert_eq!(track_id, "bgm-root3");
            assert_eq!(asset_id, "interactive_02");
        },
        _ => panic!("expected createTrack"),
    }
    match &cmds[2] {
        Command::SetGain { ramp_ms, .. } => assert_eq!(*ramp_ms, 0),
        _ => panic!("expected setGain"),
    }
}

#[test]
fn play_loop_defaults() {
    let mut o = Orchestrator::new();
    let cmds = o.audio_orch_play_loop("river", None, None, None, None);
    assert_eq!(cmds.len(), 2);
    match &cmds[0] {
        Command::CreateTrack { track_id, bus_id, asset_id, gain_db, .. } => {
            assert_eq!(track_id, "sfx-loop-0");
            assert_eq!(bus_id, "sfx");
            assert_eq!(asset_id, "river");
            assert_eq!(*gain_db, 0);
        },
        _ => panic!("expected createTrack"),
    }
    let cmds2 = o.audio_orch_play_loop(
        "wind",
        Some("ambient".to_string()),
        Some(LoopArg {
            mode: LoopMode::Seamless,
            start: 10,
            end: Some(100),
            crossfade_ms: None,
        }),
        Some(-12),
        Some("wind-1".to_string()),
    );
    match &cmds2[0] {
        Command::CreateTrack { track_id, bus_id, gain_db, .. } => {
            assert_eq!(track_id, "wind-1");
            assert_eq!(bus_id, "ambient");
            assert_eq!(*gain_db, -12);
        },
        _ => panic!("expected createTrack"),
    }
}

#[test]
fn set_loop_and_stop_commands() {
    let mut o = Orchestrator::new();
    let cmds = o.audio_orch_set_loop("t", None);
    match &cmds[0] {
        Command::SetLoop { track_id, loop_arg } => {
            assert_eq!(track_id, "t");
            assert_eq!(loop_arg.mode, LoopMode::Once);
        },
        _ => panic!("expected setLoop"),
    }
    let cmds2 = o.audio_orch_stop_track("t");
    match &cmds2[0] {
        Command::Stop { track_id } => assert_eq!(track_id, "t"),
        _ => panic!("expected stop"),
    }
}

#[test]
fn track_ended_releases_ducking() {
    let mut o = Orchestrator::new();
    o.audio_orch_init();
    o.audio_orch_play_voice(None);
    assert!(o.ducking);
    let cmds = o.audio_orch_on_engine_message("trackEnded", "voice-0");
    assert_eq!(cmds.len(), 2);
    match &cmds[0] {
        Command::SetGain { scope, id, gain_db, ramp_ms } => {
            assert!(matches!(scope, GainScope::Bus));
            assert_eq!(id, "bgm");
            assert_eq!(*gain_db, -6);
            assert_eq!(*ramp_ms, 150);
        },
        _ => panic!("expected setGain"),
    }
    match &cmds[1] {
        Command::SetGain { id, .. } => assert_eq!(id, "ambient"),
        _ => panic!("expected setGain"),
    }
    assert!(!o.ducking);
    // without the latch the same message is silent
    let cmds2 = o.audio_orch_on_engine_message("trackEnded", "voice-0");
    assert_eq!(cmds2.len(), 0);
}

#[test]
fn other_messages_are_ignored() {
    let mut o = Orchestrator::new();
    o.audio_orch_play_voice(None);
    assert_eq!(o.audio_orch_on_engine_message("levelUp", "voice-0").len(), 0);
    assert_eq!(o.audio_orch_on_engine_message("trackEnded", "bgm-root1").len(), 0);
    assert!(o.ducking);
}
