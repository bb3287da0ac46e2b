//! Title storage layout of Halo Online build 1.106708 cert_ms23 release: where
//! the BLF files live and where their editable configuration lives.

use vstd::prelude::*;
use vstd::string::StringExecFns;
use crate::text::zero_padded_decimal;

pub mod title_storage_output;
pub mod title_storage_config;

verus! {

/// Major version of the network configuration chunk of this build.
pub const k_network_configuration_version_major: u16 = 135;
/// Major version of the online file manifest chunk of this build.
pub const k_online_file_manifest_version_major: u16 = 1;
/// Major version of the hopper configuration table chunk of this build.
pub const k_hopper_configuration_table_version_major: u16 = 11;
/// Major version of the hopper description table chunk of this build.
pub const k_hopper_description_table_version_major: u16 = 3;
/// Major version of the game set chunk of this build.
pub const k_game_set_version_major: u16 = 6;
/// Major version of the packed game variant chunk of this build.
pub const k_packed_game_variant_version_major: u16 = 10;
/// Major version of the packed map variant chunk of this build.
pub const k_packed_map_variant_version_major: u16 = 12;

/// Path components joined with `/`.
pub open spec fn join(a: Seq<char>, b: Seq<char>) -> Seq<char> {
    a + seq!['/'] + b
}

/// `a/b`.
pub fn join_path(a: &str, b: &str) -> (r: String)
    ensures
        r@ == join(a@, b@),
{
    proof { reveal_strlit("/"); }
    let mut r = String::from_str(a);
    r.append("/");
    r.append(b);
    r
}

/// `prefix`, the chunk version zero-padded to 3 digits, then `suffix`.
pub fn versioned_name(prefix: &str, version: u16, suffix: &str) -> (r: String)
    ensures
        r@ == prefix@ + crate::text::zero_padded(crate::text::decimal(version as nat), 3) + suffix@,
{
    let mut r = String::from_str(prefix);
    let v = zero_padded_decimal(version as u64, 3);
    r.append(v.as_str());
    r.append(suffix);
    r
}

/// A hopper identifier as a folder name: zero-padded to 5 digits.
pub fn hopper_folder_name(hopper_identifier: u16) -> (r: String)
    ensures
        r@ == crate::text::zero_padded(crate::text::decimal(hopper_identifier as nat), 5),
{
    zero_padded_decimal(hopper_identifier as u64, 5)
}

} // verus!
