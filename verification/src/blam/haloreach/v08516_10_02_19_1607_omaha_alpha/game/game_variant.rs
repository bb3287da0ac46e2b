//! The game engine a game variant is for, stored in four bits.

use vstd::prelude::*;

verus! {

/// The game engine a game variant is for.
#[derive(PartialEq, Eq, Debug, Clone, Copy)]
pub enum e_game_mode {
    sandbox,
    custom,
    campaign,
    survival,
}

impl Default for e_game_mode {
    fn default() -> (m: Self)
        ensures
            m == e_game_mode::custom,
    {
        e_game_mode::custom
    }
}

impl e_game_mode {
    /// The number that stands for the engine.
    pub open spec fn tag(self) -> u32 {
        match self {
            e_game_mode::sandbox => 1,
            e_game_mode::custom => 2,
            e_game_mode::campaign => 3,
            e_game_mode::survival => 4,
        }
    }

    /// The number that stands for the engine.
    pub fn to_u32(&self) -> (t: u32)
        ensures
            t == self.tag(),
    {
        match self {
            e_game_mode::sandbox => 1,
            e_game_mode::custom => 2,
            e_game_mode::campaign => 3,
            e_game_mode::survival => 4,
        }
    }

    /// The engine that `v` stands for; none for 0 or a number above 4.
    pub fn from_u32(v: u32) -> (r: Option<Self>)
        ensures
            match r {
                Some(m) => m.tag() == v,
                None => v == 0 || v > 4,
            },
    {
        match v {
            1 => Some(e_game_mode::sandbox),
            2 => Some(e_game_mode::custom),
            3 => Some(e_game_mode::campaign),
            4 => Some(e_game_mode::survival),
            _ => None,
        }
    }
}

/// Each engine's number lies in 1 to 4, and no two engines share a number.
pub proof fn lemma_game_mode_tags(a: e_game_mode, b: e_game_mode)
    ensures
        1 <= a.tag() <= 4,
        a.tag() == b.tag() ==> a == b,
{
}

/// The numbering of the game engines in the game variant format: sandbox 1,
/// custom 2, campaign 3, survival 4 (0 stands for none).
pub proof fn lemma_game_mode_numbering()
    ensures
        e_game_mode::sandbox.tag() == 1,
        e_game_mode::custom.tag() == 2,
        e_game_mode::campaign.tag() == 3,
        e_game_mode::survival.tag() == 4,
{
}

} // verus!
