//! The kinds of Megalo condition, stored in four bits.

use vstd::prelude::*;

verus! {

/// The kind of a Megalo condition.
#[derive(PartialEq, Eq, Debug, Clone, Copy)]
pub enum e_condition_type {
    none,
    compare,
    shape_contains,
    killer_type_is,
    has_alliance_status,
    is_zero,
    is_of_type,
    has_any_players,
    is_out_of_bounds,
    is_fireteam_leader,
    assisted_kill_of,
    has_forge_label,
    is_not_respawning,
    is_in_use,
}

impl e_condition_type {
    /// The number that stands for the kind.
    pub open spec fn tag(self) -> u32 {
        match self {
            e_condition_type::none => 0,
            e_condition_type::compare => 1,
            e_condition_type::shape_contains => 2,
            e_condition_type::killer_type_is => 3,
            e_condition_type::has_alliance_status => 4,
            e_condition_type::is_zero => 5,
            e_condition_type::is_of_type => 6,
            e_condition_type::has_any_players => 7,
            e_condition_type::is_out_of_bounds => 8,
            e_condition_type::is_fireteam_leader => 9,
            e_condition_type::assisted_kill_of => 10,
            e_condition_type::has_forge_label => 11,
            e_condition_type::is_not_respawning => 12,
            e_condition_type::is_in_use => 13,
        }
    }

    /// The number that stands for the kind.
    pub fn to_u32(&self) -> (t: u32)
        ensures
            t == self.tag(),
    {
        match self {
            e_condition_type::none => 0,
            e_condition_type::compare => 1,
            e_condition_type::shape_contains => 2,
            e_condition_type::killer_type_is => 3,
            e_condition_type::has_alliance_status => 4,
            e_condition_type::is_zero => 5,
            e_condition_type::is_of_type => 6,
            e_condition_type::has_any_players => 7,
            e_condition_type::is_out_of_bounds => 8,
            e_condition_type::is_fireteam_leader => 9,
            e_condition_type::assisted_kill_of => 10,
            e_condition_type::has_forge_label => 11,
            e_condition_type::is_not_respawning => 12,
            e_condition_type::is_in_use => 13,
        }
    }

    /// The kind that `v` stands for; none for a number above 13.
    pub fn from_u32(v: u32) -> (r: Option<Self>)
        ensures
            match r {
                Some(t) => t.tag() == v,
                None => v > 13,
            },
    {
        match v {
            0 => Some(e_condition_type::none),
            1 => Some(e_condition_type::compare),
            2 => Some(e_condition_type::shape_contains),
            3 => Some(e_condition_type::killer_type_is),
            4 => Some(e_condition_type::has_alliance_status),
            5 => Some(e_condition_type::is_zero),
            6 => Some(e_condition_type::is_of_type),
            7 => Some(e_condition_type::has_any_players),
            8 => Some(e_condition_type::is_out_of_bounds),
            9 => Some(e_condition_type::is_fireteam_leader),
            10 => Some(e_condition_type::assisted_kill_of),
            11 => Some(e_condition_type::has_forge_label),
            12 => Some(e_condition_type::is_not_respawning),
            13 => Some(e_condition_type::is_in_use),
            _ => None,
        }
    }
}

/// Each kind's number gives the kind back, and no two kinds share a number.
pub proof fn lemma_condition_type_tags(a: e_condition_type, b: e_condition_type)
    ensures
        a.tag() <= 13,
        a.tag() == b.tag() ==> a == b,
{
}

/// The numbering of the condition kinds in the Megalo format: none 0,
/// compare 1, shape contains 2, killer type is 3, has alliance status 4, is
/// zero 5, is of type 6, has any players 7, is out of bounds 8, is fireteam
/// leader 9, assisted kill of 10, has forge label 11, is not respawning 12,
/// is in use 13.
pub proof fn lemma_condition_type_numbering()
    ensures
        e_condition_type::none.tag() == 0,
        e_condition_type::compare.tag() == 1,
        e_condition_type::shape_contains.tag() == 2,
        e_condition_type::killer_type_is.tag() == 3,
        e_condition_type::has_alliance_status.tag() == 4,
        e_condition_type::is_zero.tag() == 5,
        e_condition_type::is_of_type.tag() == 6,
        e_condition_type::has_any_players.tag() == 7,
        e_condition_type::is_out_of_bounds.tag() == 8,
        e_condition_type::is_fireteam_leader.tag() == 9,
        e_condition_type::assisted_kill_of.tag() == 10,
        e_condition_type::has_forge_label.tag() == 11,
        e_condition_type::is_not_respawning.tag() == 12,
        e_condition_type::is_in_use.tag() == 13,
{
}

} // verus!
