//! The orchestrator: translates geographic and engine events into ordered
//! command sequences for the mixer, holding only high-level state (active
//! background-music track, ducking latch, last road, one-shot voice
//! latches).

use vstd::prelude::*;

use crate::engine::LoopMode;
use crate::strutil::{spec_dec_digits, str_eq, u64_to_dec};
use vstd::string::StrSliceExecFns;
use vstd::string::StringExecFns;

verus! {

/// When a transition command fires.
#[derive(Clone, Copy, Debug, PartialEq, Eq, Structural)]
pub enum TransitionAt {
    Now,
    LoopEnd,
    NextMarker,
}

/// What a gain command addresses.
#[derive(Clone, Copy, Debug, PartialEq, Eq, Structural)]
pub enum GainScope {
    Track,
    Bus,
}

/// A loop specification as carried in commands: `end` of `None` means "to
/// the end of the asset".
#[derive(Clone, Copy, Debug, PartialEq, Eq, Structural)]
pub struct LoopArg {
    pub mode: LoopMode,
    pub start: u32,
    pub end: Option<i32>,
    pub crossfade_ms: Option<u32>,
}

impl LoopArg {
    /// A full-length seamless loop.
    pub open spec fn seamless_spec() -> LoopArg {
        LoopArg { mode: LoopMode::Seamless, start: 0, end: None, crossfade_ms: None }
    }

    pub fn seamless() -> (l: LoopArg)
        ensures
            l == LoopArg::seamless_spec(),
    {
        LoopArg { mode: LoopMode::Seamless, start: 0, end: None, crossfade_ms: None }
    }

    /// A non-looping configuration: the track plays out to its end.
    pub open spec fn once_spec() -> LoopArg {
        LoopArg { mode: LoopMode::Once, start: 0, end: None, crossfade_ms: None }
    }

    pub fn once() -> (l: LoopArg)
        ensures
            l == LoopArg::once_spec(),
    {
        LoopArg { mode: LoopMode::Once, start: 0, end: None, crossfade_ms: None }
    }
}

/// One command for the mixer (or the host around it).
pub enum Command {
    CreateBus { bus_id: String, gain_db: i32 },
    CreateTrack { track_id: String, bus_id: String, asset_id: String, gain_db: i32, pan: i32 },
    SchedulePlay { track_id: String, loop_arg: Option<LoopArg> },
    SetLoop { track_id: String, loop_arg: LoopArg },
    Transition { track_id: String, at: TransitionAt, to_asset_id: String, loop_arg: LoopArg },
    SetGain { scope: GainScope, id: String, gain_db: i32, ramp_ms: u32 },
    SetDucker {
        target_bus_id: String,
        key_bus_id: String,
        threshold_db: i32,
        ratio: u32,
        attack_ms: u32,
        release_ms: u32,
        max_atten_db: i32,
        makeup_db: i32,
    },
    Stop { track_id: String },
}

#[verifier::ext_equal]
pub ghost enum CommandV {
    CreateBus { bus_id: Seq<char>, gain_db: i32 },
    CreateTrack {
        track_id: Seq<char>,
        bus_id: Seq<char>,
        asset_id: Seq<char>,
        gain_db: i32,
        pan: i32,
    },
    SchedulePlay { track_id: Seq<char>, loop_arg: Option<LoopArg> },
    SetLoop { track_id: Seq<char>, loop_arg: LoopArg },
    Transition { track_id: Seq<char>, at: TransitionAt, to_asset_id: Seq<char>, loop_arg: LoopArg },
    SetGain { scope: GainScope, id: Seq<char>, gain_db: i32, ramp_ms: u32 },
    SetDucker {
        target_bus_id: Seq<char>,
        key_bus_id: Seq<char>,
        threshold_db: i32,
        ratio: u32,
        attack_ms: u32,
        release_ms: u32,
        max_atten_db: i32,
        makeup_db: i32,
    },
    Stop { track_id: Seq<char> },
}

impl View for Command {
    type V = CommandV;

    open spec fn view(&self) -> CommandV {
        match self {
            Command::CreateBus { bus_id, gain_db } => CommandV::CreateBus {
                bus_id: bus_id@,
                gain_db: *gain_db,
            },
            Command::CreateTrack { track_id, bus_id, asset_id, gain_db, pan } => {
                CommandV::CreateTrack {
                    track_id: track_id@,
                    bus_id: bus_id@,
                    asset_id: asset_id@,
                    gain_db: *gain_db,
                    pan: *pan,
                }
            },
            Command::SchedulePlay { track_id, loop_arg } => CommandV::SchedulePlay {
                track_id: track_id@,
                loop_arg: *loop_arg,
            },
            Command::SetLoop { track_id, loop_arg } => CommandV::SetLoop {
                track_id: track_id@,
                loop_arg: *loop_arg,
            },
            Command::Transition { track_id, at, to_asset_id, loop_arg } => CommandV::Transition {
                track_id: track_id@,
                at: *at,
                to_asset_id: to_asset_id@,
                loop_arg: *loop_arg,
            },
            Command::SetGain { scope, id, gain_db, ramp_ms } => CommandV::SetGain {
                scope: *scope,
                id: id@,
                gain_db: *gain_db,
                ramp_ms: *ramp_ms,
            },
            Command::SetDucker {
                target_bus_id,
                key_bus_id,
                threshold_db,
                ratio,
                attack_ms,
                release_ms,
                max_atten_db,
                makeup_db,
            } => CommandV::SetDucker {
                target_bus_id: target_bus_id@,
                key_bus_id: key_bus_id@,
                threshold_db: *threshold_db,
                ratio: *ratio,
                attack_ms: *attack_ms,
                release_ms: *release_ms,
                max_atten_db: *max_atten_db,
                makeup_db: *makeup_db,
            },
            Command::Stop { track_id } => CommandV::Stop { track_id: track_id@ },
        }
    }
}

pub open spec fn cmds_view(cmds: Seq<Command>) -> Seq<CommandV> {
    cmds.map_values(|c: Command| c@)
}

/// The orchestrator's state.
pub struct Orchestrator {
    pub initialized: bool,
    pub ducking: bool,
    pub last_road: Option<String>,
    pub start_played: bool,
    pub goal_played: bool,
    pub active_bgm_track: Option<String>,
    /// Monotonic counter for generated track ids.
    pub next_id: u64,
}

#[verifier::ext_equal]
pub ghost struct OrchV {
    pub initialized: bool,
    pub ducking: bool,
    pub last_road: Option<Seq<char>>,
    pub start_played: bool,
    pub goal_played: bool,
    pub active_bgm_track: Option<Seq<char>>,
    pub next_id: u64,
}

impl View for Orchestrator {
    type V = OrchV;

    open spec fn view(&self) -> OrchV {
        OrchV {
            initialized: self.initialized,
            ducking: self.ducking,
            last_road: match &self.last_road {
                Some(r) => Some(r@),
                None => None,
            },
            start_played: self.start_played,
            goal_played: self.goal_played,
            active_bgm_track: match &self.active_bgm_track {
                Some(t) => Some(t@),
                None => None,
            },
            next_id: self.next_id,
        }
    }
}

/// The ducker every bus pair gets at start-up.
pub open spec fn spec_voice_ducker(target: Seq<char>) -> CommandV {
    CommandV::SetDucker {
        target_bus_id: target,
        key_bus_id: "voice"@,
        threshold_db: -30i32,
        ratio: 6,
        attack_ms: 15,
        release_ms: 200,
        max_atten_db: 12,
        makeup_db: 0,
    }
}

/// `audio_orch_init`: once per lifetime, the four buses at -6 dB and a
/// voice-keyed ducker on the music and ambience buses.
pub open spec fn spec_orch_init(st: OrchV) -> (OrchV, Seq<CommandV>) {
    if st.initialized {
        (st, Seq::empty())
    } else {
        let cmds = seq![
            CommandV::CreateBus { bus_id: "bgm"@, gain_db: -6i32 },
            CommandV::CreateBus { bus_id: "ambient"@, gain_db: -6i32 },
            CommandV::CreateBus { bus_id: "sfx"@, gain_db: -6i32 },
            CommandV::CreateBus { bus_id: "voice"@, gain_db: -6i32 },
            spec_voice_ducker("bgm"@),
            spec_voice_ducker("ambient"@),
        ];
        (OrchV { initialized: true, ..st }, cmds)
    }
}

/// `audio_orch_start_bgm`: the default background loop on its own track.
pub open spec fn spec_orch_start_bgm(st: OrchV) -> (OrchV, Seq<CommandV>) {
    let cmds = seq![
        CommandV::CreateTrack {
            track_id: "bgm-root1"@,
            bus_id: "bgm"@,
            asset_id: "bgm_01"@,
            gain_db: 0,
            pan: 0,
        },
        CommandV::SchedulePlay {
            track_id: "bgm-root1"@,
            loop_arg: Some(LoopArg::seamless_spec()),
        },
    ];
    (OrchV { active_bgm_track: Some("bgm-root1"@), ..st }, cmds)
}

/// A generated voice track id: "voice-" followed by the counter.
pub open spec fn spec_voice_track_id(n: u64) -> Seq<char> {
    "voice-"@ + spec_dec_digits(n as int)
}

/// The commands that start one voice asset on a fresh voice track.
pub open spec fn spec_voice_cmds(track_id: Seq<char>, asset_id: Seq<char>) -> Seq<CommandV> {
    seq![
        CommandV::CreateTrack {
            track_id: track_id,
            bus_id: "voice"@,
            asset_id: asset_id,
            gain_db: 0,
            pan: 0,
        },
        CommandV::SchedulePlay { track_id: track_id, loop_arg: None },
    ]
}

/// `audio_orch_play_voice`: a uniquely named track on the voice bus, the
/// ducking latch set.
pub open spec fn spec_orch_play_voice(st: OrchV, id: Option<Seq<char>>) -> (OrchV, Seq<CommandV>) {
    let asset = match id {
        Some(s) => s,
        None => "voice_03_start"@,
    };
    let track = spec_voice_track_id(st.next_id);
    (
        OrchV { ducking: true, next_id: crate::engine::spec_u64_sat(st.next_id + 1), ..st },
        spec_voice_cmds(track, asset),
    )
}

/// A crossfade to a new looping track: create it quiet, start it, ramp it
/// up, and ramp the other known background tracks down.
pub open spec fn spec_crossfade_to(
    track_id: Seq<char>,
    asset_id: Seq<char>,
    bus: Seq<char>,
    loop_arg: LoopArg,
    fade_ms: u32,
) -> Seq<CommandV> {
    let head = seq![
        CommandV::CreateTrack {
            track_id: track_id,
            bus_id: bus,
            asset_id: asset_id,
            gain_db: -60i32,
            pan: 0,
        },
        CommandV::SchedulePlay { track_id: track_id, loop_arg: Some(loop_arg) },
        CommandV::SetGain { scope: GainScope::Track, id: track_id, gain_db: 0, ramp_ms: fade_ms },
    ];
    let o1 = if track_id == "bgm-root1"@ {
        Seq::<CommandV>::empty()
    } else {
        seq![
            CommandV::SetGain {
                scope: GainScope::Track,
                id: "bgm-root1"@,
                gain_db: -60i32,
                ramp_ms: fade_ms,
            },
        ]
    };
    let o2 = if track_id == "bgm-root2"@ {
        Seq::<CommandV>::empty()
    } else {
        seq![
            CommandV::SetGain {
                scope: GainScope::Track,
                id: "bgm-root2"@,
                gain_db: -60i32,
                ramp_ms: fade_ms,
            },
        ]
    };
    let o3 = if track_id == "bgm-root3"@ {
        Seq::<CommandV>::empty()
    } else {
        seq![
            CommandV::SetGain {
                scope: GainScope::Track,
                id: "bgm-root3"@,
                gain_db: -60i32,
                ramp_ms: fade_ms,
            },
        ]
    };
    head + o1 + o2 + o3
}

/// Whether any of `ids` equals `id`.
pub open spec fn spec_contains_id(ids: Seq<Seq<char>>, id: Seq<char>) -> bool {
    exists|i: int| 0 <= i < ids.len() && ids[i] == id
}

/// The area part of a geo update: each of the "start" and "goal" areas
/// fires one voice line, once per lifetime.
pub open spec fn spec_area_step(
    st: OrchV,
    areas: Seq<Seq<char>>,
    area: Seq<char>,
    asset: Seq<char>,
    played: bool,
) -> bool {
    spec_contains_id(areas, area) && !played
}

/// The first half of a road change: pick the new background music.
pub open spec fn spec_road_step_head(st: OrchV, rid: Seq<char>) -> (OrchV, Seq<CommandV>) {
    if rid == "root1"@ {
        if st.last_road == Some("root2"@) {
            match st.active_bgm_track {
                Some(active) => (
                    st,
                    seq![
                        CommandV::Transition {
                            track_id: active,
                            at: TransitionAt::LoopEnd,
                            to_asset_id: "bgm_01"@,
                            loop_arg: LoopArg::seamless_spec(),
                        },
                    ],
                ),
                None => (st, Seq::<CommandV>::empty()),
            }
        } else {
            (
                OrchV { active_bgm_track: Some("bgm-root1"@), ..st },
                spec_crossfade_to("bgm-root1"@, "bgm_01"@, "bgm"@, LoopArg::seamless_spec(), 300),
            )
        }
    } else if rid == "root2"@ {
        (
            OrchV { active_bgm_track: Some("bgm-root2"@), ..st },
            spec_crossfade_to("bgm-root2"@, "interactive_01"@, "bgm"@, LoopArg::seamless_spec(), 200),
        )
    } else if rid == "root3"@ {
        match st.active_bgm_track {
            Some(active) => (
                st,
                seq![
                    CommandV::Transition {
                        track_id: active,
                        at: TransitionAt::LoopEnd,
                        to_asset_id: "interactive_02"@,
                        loop_arg: LoopArg::seamless_spec(),
                    },
                ],
            ),
            None => (
                OrchV { active_bgm_track: Some("bgm-root3"@), ..st },
                spec_crossfade_to("bgm-root3"@, "interactive_02"@, "bgm"@, LoopArg::seamless_spec(), 0),
            ),
        }
    } else {
        (st, Seq::<CommandV>::empty())
    }
}

/// The road part of a geo update, applied only when the road changed: the
/// new music is chosen, leaving "root3" lets the *outgoing* track — the one
/// that was active before the change — play out, and the road is
/// remembered.
pub open spec fn spec_road_cmds(st: OrchV, rid: Seq<char>) -> (OrchV, Seq<CommandV>) {
    let outgoing = st.active_bgm_track;
    let (st1, cmds1) = spec_road_step_head(st, rid);
    let (st2, cmds2) = if st.last_road == Some("root3"@) && rid != "root3"@ {
        match outgoing {
            Some(active) => (
                st1,
                cmds1 + seq![
                    CommandV::SetLoop { track_id: active, loop_arg: LoopArg::once_spec() },
                ],
            ),
            None => (st1, cmds1),
        }
    } else {
        (st1, cmds1)
    };
    (OrchV { last_road: Some(rid), ..st2 }, cmds2)
}

/// `audio_orch_on_geo_update`: one-shot voice lines on entering the start
/// and goal areas, then background-music routing on a road change.
pub open spec fn spec_orch_on_geo_update(
    st: OrchV,
    road_id: Option<Seq<char>>,
    areas: Seq<Seq<char>>,
) -> (OrchV, Seq<CommandV>) {
    let (st1, cmds1) = if spec_contains_id(areas, "start"@) && !st.start_played {
        (
            OrchV {
                ducking: true,
                start_played: true,
                next_id: crate::engine::spec_u64_sat(st.next_id + 1),
                ..st
            },
            spec_voice_cmds(spec_voice_track_id(st.next_id), "voice_03_start"@),
        )
    } else {
        (st, Seq::<CommandV>::empty())
    };
    let (st2, cmds2) = if spec_contains_id(areas, "goal"@) && !st1.goal_played {
        (
            OrchV {
                ducking: true,
                goal_played: true,
                next_id: crate::engine::spec_u64_sat(st1.next_id + 1),
                ..st1
            },
            spec_voice_cmds(spec_voice_track_id(st1.next_id), "voice_04_goal"@),
        )
    } else {
        (st1, Seq::<CommandV>::empty())
    };
    let (st3, cmds3) = match road_id {
        Some(rid) => if st2.last_road != Some(rid) {
            spec_road_cmds(st2, rid)
        } else {
            (st2, Seq::<CommandV>::empty())
        },
        None => (st2, Seq::<CommandV>::empty()),
    };
    (st3, cmds1 + cmds2 + cmds3)
}

/// `audio_orch_play_loop`: a generic looping track; the bus defaults to
/// "sfx", the loop to a full seamless one, the gain to 0 dB, and the track
/// id to one generated from the bus name and the counter.
pub open spec fn spec_orch_play_loop(
    st: OrchV,
    asset_id: Seq<char>,
    bus: Option<Seq<char>>,
    loop_arg: Option<LoopArg>,
    gain_db: Option<i32>,
    track_id: Option<Seq<char>>,
) -> (OrchV, Seq<CommandV>) {
    let b = match bus {
        Some(s) => s,
        None => "sfx"@,
    };
    let l = match loop_arg {
        Some(l0) => l0,
        None => LoopArg::seamless_spec(),
    };
    let g = match gain_db {
        Some(g0) => g0,
        None => 0,
    };
    let (tid, st2) = match track_id {
        Some(t) => (t, st),
        None => (
            b + "-loop-"@ + spec_dec_digits(st.next_id as int),
            OrchV { next_id: crate::engine::spec_u64_sat(st.next_id + 1), ..st },
        ),
    };
    (
        st2,
        seq![
            CommandV::CreateTrack {
                track_id: tid,
                bus_id: b,
                asset_id: asset_id,
                gain_db: g,
                pan: 0,
            },
            CommandV::SchedulePlay { track_id: tid, loop_arg: Some(l) },
        ],
    )
}

/// Whether a track id names a voice track.
pub open spec fn spec_is_voice_track(s: Seq<char>) -> bool {
    s.len() >= 6 && s.subrange(0, 6) == "voice-"@
}

/// `audio_orch_on_engine_message`: a finished voice track releases the
/// ducking latch and restores the music and ambience bus gains.
pub open spec fn spec_orch_on_engine_message(st: OrchV, msg_type: Seq<char>, track_id: Seq<char>)
    -> (OrchV, Seq<CommandV>) {
    if msg_type == "trackEnded"@ && spec_is_voice_track(track_id) && st.ducking {
        (
            OrchV { ducking: false, ..st },
            seq![
                CommandV::SetGain { scope: GainScope::Bus, id: "bgm"@, gain_db: -6i32, ramp_ms: 150 },
                CommandV::SetGain {
                    scope: GainScope::Bus,
                    id: "ambient"@,
                    gain_db: -6i32,
                    ramp_ms: 150,
                },
            ],
        )
    } else {
        (st, Seq::<CommandV>::empty())
    }
}


fn contains_id(ids: &Vec<String>, id: &str) -> (r: bool)
    ensures
        r == spec_contains_id(ids.deep_view(), id@),
{
    let n = ids.len();
    let mut i: usize = 0;
    while i < n
        invariant
            i <= n,
            n == ids@.len(),
            forall|j: int| 0 <= j < i ==> ids.deep_view()[j] != id@,
        decreases n - i,
    {
        if str_eq(ids[i].as_str(), id) {
            proof {
                assert(ids.deep_view()[i as int] == ids@[i as int]@);
            }
            return true;
        }
        proof {
            assert(ids.deep_view()[i as int] == ids@[i as int]@);
        }
        i = i + 1;
    }
    false
}

fn is_voice_track(s: &str) -> (r: bool)
    ensures
        r == spec_is_voice_track(s@),
{
    let n = s.unicode_len();
    if n < 6 {
        return false;
    }
    let head = s.substring_char(0, 6);
    str_eq(head, "voice-")
}

fn saturating_bump(n: u64) -> (r: u64)
    ensures
        r == crate::engine::spec_u64_sat(n + 1),
{
    if n < u64::MAX {
        n + 1
    } else {
        u64::MAX
    }
}

/// The executable form of `spec_crossfade_to`.
fn crossfade_to(
    cmds: &mut Vec<Command>,
    track_id: &str,
    asset_id: &str,
    bus: &str,
    loop_arg: LoopArg,
    fade_ms: u32,
)
    ensures
        cmds_view(final(cmds)@) =~= cmds_view(old(cmds)@) + spec_crossfade_to(
            track_id@,
            asset_id@,
            bus@,
            loop_arg,
            fade_ms,
        ),
{
    cmds.push(
        Command::CreateTrack {
            track_id: String::from_str(track_id),
            bus_id: String::from_str(bus),
            asset_id: String::from_str(asset_id),
            gain_db: -60,
            pan: 0,
        },
    );
    cmds.push(
        Command::SchedulePlay { track_id: String::from_str(track_id), loop_arg: Some(loop_arg) },
    );
    cmds.push(
        Command::SetGain {
            scope: GainScope::Track,
            id: String::from_str(track_id),
            gain_db: 0,
            ramp_ms: fade_ms,
        },
    );
    if !str_eq(track_id, "bgm-root1") {
        cmds.push(
            Command::SetGain {
                scope: GainScope::Track,
                id: String::from_str("bgm-root1"),
                gain_db: -60,
                ramp_ms: fade_ms,
            },
        );
    }
    if !str_eq(track_id, "bgm-root2") {
        cmds.push(
            Command::SetGain {
                scope: GainScope::Track,
                id: String::from_str("bgm-root2"),
                gain_db: -60,
                ramp_ms: fade_ms,
            },
        );
    }
    if !str_eq(track_id, "bgm-root3") {
        cmds.push(
            Command::SetGain {
                scope: GainScope::Track,
                id: String::from_str("bgm-root3"),
                gain_db: -60,
                ramp_ms: fade_ms,
            },
        );
    }
}

impl Orchestrator {
    /// A fresh orchestrator: nothing initialized, nothing played.
    pub fn new() -> (o: Orchestrator)
        ensures
            o@ == (OrchV {
                initialized: false,
                ducking: false,
                last_road: None,
                start_played: false,
                goal_played: false,
                active_bgm_track: None,
                next_id: 0,
            }),
    {
        Orchestrator {
            initialized: false,
            ducking: false,
            last_road: None,
            start_played: false,
            goal_played: false,
            active_bgm_track: None,
            next_id: 0,
        }
    }

    /// A fresh "voice-<counter>" track id; bumps the counter.
    fn fresh_voice_id(&mut self) -> (t: String)
        ensures
            t@ == spec_voice_track_id(old(self)@.next_id),
            final(self)@ == (OrchV {
                next_id: crate::engine::spec_u64_sat(old(self)@.next_id + 1),
                ..old(self)@
            }),
    {
        let mut t = String::from_str("voice-");
        let digits = u64_to_dec(self.next_id);
        t.append(digits.as_str());
        self.next_id = saturating_bump(self.next_id);
        proof {
            assert(self@ =~= (OrchV {
                next_id: crate::engine::spec_u64_sat(old(self)@.next_id + 1),
                ..old(self)@
            }));
        }
        t
    }

    /// See `spec_orch_init`.
    pub fn audio_orch_init(&mut self) -> (cmds: Vec<Command>)
        ensures
            ({
                let (st2, cv) = spec_orch_init(old(self)@);
                &&& final(self)@ == st2
                &&& cmds_view(cmds@) == cv
            }),
    {
        if self.initialized {
            let cmds: Vec<Command> = Vec::new();
            proof {
                assert(cmds_view(cmds@) =~= Seq::<CommandV>::empty());
            }
            return cmds;
        }
        self.initialized = true;
        let mut cmds: Vec<Command> = Vec::new();
        cmds.push(Command::CreateBus { bus_id: String::from_str("bgm"), gain_db: -6 });
        cmds.push(Command::CreateBus { bus_id: String::from_str("ambient"), gain_db: -6 });
        cmds.push(Command::CreateBus { bus_id: String::from_str("sfx"), gain_db: -6 });
        cmds.push(Command::CreateBus { bus_id: String::from_str("voice"), gain_db: -6 });
        cmds.push(
            Command::SetDucker {
                target_bus_id: String::from_str("bgm"),
                key_bus_id: String::from_str("voice"),
                threshold_db: -30,
                ratio: 6,
                attack_ms: 15,
                release_ms: 200,
                max_atten_db: 12,
                makeup_db: 0,
            },
        );
        cmds.push(
            Command::SetDucker {
                target_bus_id: String::from_str("ambient"),
                key_bus_id: String::from_str("voice"),
                threshold_db: -30,
                ratio: 6,
                attack_ms: 15,
                release_ms: 200,
                max_atten_db: 12,
                makeup_db: 0,
            },
        );
        proof {
            assert(cmds_view(cmds@) =~= spec_orch_init(old(self)@).1);
            assert(self@ =~= spec_orch_init(old(self)@).0);
        }
        cmds
    }

    /// See `spec_orch_start_bgm`.
    pub fn audio_orch_start_bgm(&mut self) -> (cmds: Vec<Command>)
        ensures
            ({
                let (st2, cv) = spec_orch_start_bgm(old(self)@);
                &&& final(self)@ == st2
                &&& cmds_view(cmds@) == cv
            }),
    {
        let mut cmds: Vec<Command> = Vec::new();
        cmds.push(
            Command::CreateTrack {
                track_id: String::from_str("bgm-root1"),
                bus_id: String::from_str("bgm"),
                asset_id: String::from_str("bgm_01"),
                gain_db: 0,
                pan: 0,
            },
        );
        cmds.push(
            Command::SchedulePlay {
                track_id: String::from_str("bgm-root1"),
                loop_arg: Some(LoopArg::seamless()),
            },
        );
        self.active_bgm_track = Some(String::from_str("bgm-root1"));
        proof {
            assert(cmds_view(cmds@) =~= spec_orch_start_bgm(old(self)@).1);
            assert(self@ =~= spec_orch_start_bgm(old(self)@).0);
        }
        cmds
    }

    /// See `spec_orch_play_voice`.
    pub fn audio_orch_play_voice(&mut self, id: Option<String>) -> (cmds: Vec<Command>)
        ensures
            ({
                let (st2, cv) = spec_orch_play_voice(
                    old(self)@,
                    match id {
                        Some(s) => Some(s@),
                        None => None,
                    },
                );
                &&& final(self)@ == st2
                &&& cmds_view(cmds@) == cv
            }),
    {
        let ghost idv = match &id {
            Some(s) => Some(s@),
            None => None::<Seq<char>>,
        };
        let asset: String = match id {
            Some(s) => s,
            None => String::from_str("voice_03_start"),
        };
        let track = self.fresh_voice_id();
        let mut cmds: Vec<Command> = Vec::new();
        cmds.push(
            Command::CreateTrack {
                track_id: track.clone(),
                bus_id: String::from_str("voice"),
                asset_id: asset,
                gain_db: 0,
                pan: 0,
            },
        );
        cmds.push(Command::SchedulePlay { track_id: track, loop_arg: None });
        self.ducking = true;
        proof {
            let (st2, cv) = spec_orch_play_voice(old(self)@, idv);
            assert(cmds_view(cmds@) =~= cv);
            assert(self@ =~= st2);
        }
        cmds
    }

    /// See `spec_road_cmds`.
    fn road_step(&mut self, rid: &str) -> (cmds: Vec<Command>)
        ensures
            ({
                let (st2, cv) = spec_road_cmds(old(self)@, rid@);
                &&& final(self)@ == st2
                &&& cmds_view(cmds@) == cv
            }),
    {
        let ghost st0 = self@;
        let mut cmds: Vec<Command> = Vec::new();
        // the track that carries the music as this change arrives
        let outgoing: Option<String> = match &self.active_bgm_track {
            Some(t) => Some(t.clone()),
            None => None,
        };
        let from_root2 = match &self.last_road {
            Some(lr) => str_eq(lr.as_str(), "root2"),
            None => false,
        };
        let from_root3 = match &self.last_road {
            Some(lr) => str_eq(lr.as_str(), "root3"),
            None => false,
        };
        proof {
            assert(from_root2 == (st0.last_road == Some("root2"@)));
            assert(from_root3 == (st0.last_road == Some("root3"@)));
        }
        if str_eq(rid, "root1") {
            if from_root2 {
                match &self.active_bgm_track {
                    Some(active) => {
                        cmds.push(
                            Command::Transition {
                                track_id: active.clone(),
                                at: TransitionAt::LoopEnd,
                                to_asset_id: String::from_str("bgm_01"),
                                loop_arg: LoopArg::seamless(),
                            },
                        );
                    },
                    None => {},
                }
            } else {
                crossfade_to(&mut cmds, "bgm-root1", "bgm_01", "bgm", LoopArg::seamless(), 300);
                self.active_bgm_track = Some(String::from_str("bgm-root1"));
            }
        } else if str_eq(rid, "root2") {
            crossfade_to(&mut cmds, "bgm-root2", "interactive_01", "bgm", LoopArg::seamless(), 200);
            self.active_bgm_track = Some(String::from_str("bgm-root2"));
        } else if str_eq(rid, "root3") {
            match &self.active_bgm_track {
                Some(active) => {
                    cmds.push(
                        Command::Transition {
                            track_id: active.clone(),
                            at: TransitionAt::LoopEnd,
                            to_asset_id: String::from_str("interactive_02"),
                            loop_arg: LoopArg::seamless(),
                        },
                    );
                },
                None => {
                    crossfade_to(
                        &mut cmds,
                        "bgm-root3",
                        "interactive_02",
                        "bgm",
                        LoopArg::seamless(),
                        0,
                    );
                    self.active_bgm_track = Some(String::from_str("bgm-root3"));
                },
            }
        }
        proof {
            let (st1, cv1) = spec_road_step_head(st0, rid@);
            assert(self@ =~= st1);
            assert(cmds_view(cmds@) =~= cv1);
        }
        if from_root3 && !str_eq(rid, "root3") {
            match outgoing {
                Some(active) => {
                    cmds.push(Command::SetLoop { track_id: active, loop_arg: LoopArg::once() });
                },
                None => {},
            }
        }
        self.last_road = Some(rid.to_owned());
        proof {
            let (st2, cv) = spec_road_cmds(st0, rid@);
            assert(cmds_view(cmds@) =~= cv);
            assert(self@ =~= st2);
        }
        cmds
    }

    /// See `spec_orch_on_geo_update`.
    pub fn audio_orch_on_geo_update(&mut self, road_id: Option<&str>, area_ids: &Vec<String>) -> (cmds:
        Vec<Command>)
        ensures
            ({
                let (st2, cv) = spec_orch_on_geo_update(
                    old(self)@,
                    match road_id {
                        Some(r) => Some(r@),
                        None => None,
                    },
                    area_ids.deep_view(),
                );
                &&& final(self)@ == st2
                &&& cmds_view(cmds@) == cv
            }),
    {
        let ghost st0 = self@;
        let ghost areas = area_ids.deep_view();
        let mut cmds: Vec<Command> = Vec::new();
        if contains_id(area_ids, "start") && !self.start_played {
            let track = self.fresh_voice_id();
            cmds.push(
                Command::CreateTrack {
                    track_id: track.clone(),
                    bus_id: String::from_str("voice"),
                    asset_id: String::from_str("voice_03_start"),
                    gain_db: 0,
                    pan: 0,
                },
            );
            cmds.push(Command::SchedulePlay { track_id: track, loop_arg: None });
            self.ducking = true;
            self.start_played = true;
        }
        let ghost st1 = self@;
        let ghost cv1 = if spec_contains_id(areas, "start"@) && !st0.start_played {
            spec_voice_cmds(spec_voice_track_id(st0.next_id), "voice_03_start"@)
        } else {
            Seq::<CommandV>::empty()
        };
        proof {
            assert(cmds_view(cmds@) =~= cv1);
        }
        let mut cmds2: Vec<Command> = Vec::new();
        if contains_id(area_ids, "goal") && !self.goal_played {
            let track = self.fresh_voice_id();
            cmds2.push(
                Command::CreateTrack {
                    track_id: track.clone(),
                    bus_id: String::from_str("voice"),
                    asset_id: String::from_str("voice_04_goal"),
                    gain_db: 0,
                    pan: 0,
                },
            );
            cmds2.push(Command::SchedulePlay { track_id: track, loop_arg: None });
            self.ducking = true;
            self.goal_played = true;
        }
        let ghost st2 = self@;
        let ghost cv2 = if spec_contains_id(areas, "goal"@) && !st1.goal_played {
            spec_voice_cmds(spec_voice_track_id(st1.next_id), "voice_04_goal"@)
        } else {
            Seq::<CommandV>::empty()
        };
        proof {
            assert(cmds_view(cmds2@) =~= cv2);
        }
        let mut cmds3: Vec<Command> = Vec::new();
        match road_id {
            Some(rid) => {
                let changed = match &self.last_road {
                    Some(lr) => !str_eq(lr.as_str(), rid),
                    None => true,
                };
                if changed {
                    let mut rc = self.road_step(rid);
                    cmds3.append(&mut rc);
                }
            },
            None => {},
        }
        cmds.append(&mut cmds2);
        cmds.append(&mut cmds3);
        proof {
            let (stf, cv) = spec_orch_on_geo_update(
                st0,
                match road_id {
                    Some(r) => Some(r@),
                    None => None,
                },
                areas,
            );
            assert(cmds_view(cmds@) =~= cv);
            assert(self@ =~= stf);
        }
        cmds
    }

    /// See `spec_orch_play_loop`.
    pub fn audio_orch_play_loop(
        &mut self,
        asset_id: &str,
        bus: Option<String>,
        loop_arg: Option<LoopArg>,
        gain_db: Option<i32>,
        track_id: Option<String>,
    ) -> (cmds: Vec<Command>)
        ensures
            ({
                let (st2, cv) = spec_orch_play_loop(
                    old(self)@,
                    asset_id@,
                    match bus {
                        Some(b) => Some(b@),
                        None => None,
                    },
                    loop_arg,
                    gain_db,
                    match track_id {
                        Some(t) => Some(t@),
                        None => None,
                    },
                );
                &&& final(self)@ == st2
                &&& cmds_view(cmds@) == cv
            }),
    {
        let ghost busv = match &bus {
            Some(b0) => Some(b0@),
            None => None::<Seq<char>>,
        };
        let ghost tidv = match &track_id {
            Some(t) => Some(t@),
            None => None::<Seq<char>>,
        };
        let b: String = match bus {
            Some(b0) => b0,
            None => String::from_str("sfx"),
        };
        let l: LoopArg = match loop_arg {
            Some(l0) => l0,
            None => LoopArg::seamless(),
        };
        let g: i32 = match gain_db {
            Some(g0) => g0,
            None => 0,
        };
        let tid: String = match track_id {
            Some(t) => t,
            None => {
                let mut t = b.clone();
                t.append("-loop-");
                let digits = u64_to_dec(self.next_id);
                t.append(digits.as_str());
                self.next_id = saturating_bump(self.next_id);
                t
            },
        };
        let mut cmds: Vec<Command> = Vec::new();
        cmds.push(
            Command::CreateTrack {
                track_id: tid.clone(),
                bus_id: b,
                asset_id: String::from_str(asset_id),
                gain_db: g,
                pan: 0,
            },
        );
        cmds.push(Command::SchedulePlay { track_id: tid, loop_arg: Some(l) });
        proof {
            let (st2, cv) = spec_orch_play_loop(old(self)@, asset_id@, busv, loop_arg, gain_db, tidv);
            assert(cmds_view(cmds@) =~= cv);
            assert(self@ =~= st2);
        }
        cmds
    }

    /// Emits a loop change for one track; a missing argument falls back to
    /// a non-looping configuration.
    pub fn audio_orch_set_loop(&mut self, track_id: &str, loop_arg: Option<LoopArg>) -> (cmds: Vec<
        Command,
    >)
        ensures
            final(self)@ == old(self)@,
            cmds_view(cmds@) =~= seq![
                CommandV::SetLoop {
                    track_id: track_id@,
                    loop_arg: match loop_arg {
                        Some(l) => l,
                        None => LoopArg::once_spec(),
                    },
                },
            ],
    {
        let l = match loop_arg {
            Some(l0) => l0,
            None => LoopArg::once(),
        };
        let mut cmds: Vec<Command> = Vec::new();
        cmds.push(Command::SetLoop { track_id: String::from_str(track_id), loop_arg: l });
        cmds
    }

    /// Emits a stop for one track.
    pub fn audio_orch_stop_track(&mut self, track_id: &str) -> (cmds: Vec<Command>)
        ensures
            final(self)@ == old(self)@,
            cmds_view(cmds@) =~= seq![CommandV::Stop { track_id: track_id@ }],
    {
        let mut cmds: Vec<Command> = Vec::new();
        cmds.push(Command::Stop { track_id: String::from_str(track_id) });
        cmds
    }

    /// See `spec_orch_on_engine_message`.
    pub fn audio_orch_on_engine_message(&mut self, msg_type: &str, track_id: &str) -> (cmds: Vec<
        Command,
    >)
        ensures
            ({
                let (st2, cv) = spec_orch_on_engine_message(old(self)@, msg_type@, track_id@);
                &&& final(self)@ == st2
                &&& cmds_view(cmds@) == cv
            }),
    {
        let mut cmds: Vec<Command> = Vec::new();
        if str_eq(msg_type, "trackEnded") && is_voice_track(track_id) && self.ducking {
            cmds.push(
                Command::SetGain {
                    scope: GainScope::Bus,
                    id: String::from_str("bgm"),
                    gain_db: -6,
                    ramp_ms: 150,
                },
            );
            cmds.push(
                Command::SetGain {
                    scope: GainScope::Bus,
                    id: String::from_str("ambient"),
                    gain_db: -6,
                    ramp_ms: 150,
                },
            );
            self.ducking = false;
        }
        proof {
            let (st2, cv) = spec_orch_on_engine_message(old(self)@, msg_type@, track_id@);
            assert(cmds_view(cmds@) =~= cv);
            assert(self@ =~= st2);
        }
        cmds
    }
}

} // verus!
