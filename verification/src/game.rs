//! Game-side state kept between geographic ticks: the previous road and
//! area set, and an opaque profile blob.  The host queries its geo
//! collaborator and hands the results in as plain values.

use vstd::prelude::*;

use crate::orch::Command;

verus! {

pub struct Game {
    pub prev_road: Option<String>,
    pub prev_areas: Vec<String>,
    pub profile_json: Option<String>,
}

#[verifier::ext_equal]
pub ghost struct GameV {
    pub prev_road: Option<Seq<char>>,
    pub prev_areas: Seq<Seq<char>>,
    pub profile_json: Option<Seq<char>>,
}

impl View for Game {
    type V = GameV;

    open spec fn view(&self) -> GameV {
        GameV {
            prev_road: match &self.prev_road {
                Some(r) => Some(r@),
                None => None,
            },
            prev_areas: self.prev_areas.deep_view(),
            profile_json: match &self.profile_json {
                Some(p) => Some(p@),
                None => None,
            },
        }
    }
}

impl Game {
    pub fn new() -> (g: Game)
        ensures
            g@ == (GameV {
                prev_road: None,
                prev_areas: Seq::empty(),
                profile_json: None,
            }),
    {
        let g = Game { prev_road: None, prev_areas: Vec::new(), profile_json: None };
        proof {
            assert(g@ =~= (GameV {
                prev_road: None,
                prev_areas: Seq::empty(),
                profile_json: None,
            }));
        }
        g
    }

    /// Stores the profile text as given; its shape is the host's business.
    pub fn game_load_profile(&mut self, json: &str)
        ensures
            final(self)@ == (GameV { profile_json: Some(json@), ..old(self)@ }),
    {
        self.profile_json = Some(json.to_owned());
        proof {
            assert(self@ =~= (GameV { profile_json: Some(json@), ..old(self)@ }));
        }
    }

    /// Forgets the previous road and areas; the profile stays.
    pub fn game_reset(&mut self)
        ensures
            final(self)@ == (GameV {
                prev_road: None,
                prev_areas: Seq::empty(),
                ..old(self)@
            }),
    {
        self.prev_road = None;
        self.prev_areas = Vec::new();
        proof {
            assert(self@ =~= (GameV {
                prev_road: None,
                prev_areas: Seq::empty(),
                ..old(self)@
            }));
        }
    }

    /// One tick: remembers the current road and areas for the next diff.
    /// No game rules are attached yet, so no commands come back.
    pub fn game_tick(&mut self, road: Option<String>, areas: Vec<String>) -> (cmds: Vec<Command>)
        ensures
            final(self)@ == (GameV {
                prev_road: match road {
                    Some(r) => Some(r@),
                    None => None,
                },
                prev_areas: areas.deep_view(),
                ..old(self)@
            }),
            cmds@.len() == 0,
    {
        let ghost roadv = match &road {
            Some(r) => Some(r@),
            None => None::<Seq<char>>,
        };
        let ghost areasv = areas.deep_view();
        self.prev_road = road;
        self.prev_areas = areas;
        proof {
            assert(self@ =~= (GameV { prev_road: roadv, prev_areas: areasv, ..old(self)@ }));
        }
        Vec::new()
    }
}

} // verus!
