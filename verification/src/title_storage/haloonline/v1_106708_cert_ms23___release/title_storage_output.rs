use vstd::prelude::*;
use vstd::string::StringExecFns;
use crate::text::{zero_padded, decimal};
use super::{join, join_path, versioned_name, hopper_folder_name};
use super::{k_network_configuration_version_major, k_online_file_manifest_version_major,
    k_hopper_configuration_table_version_major, k_hopper_description_table_version_major,
    k_game_set_version_major, k_packed_game_variant_version_major, k_packed_map_variant_version_major};

verus! {

pub open spec fn network_configuration_file_name_spec() -> Seq<char> {
    "network_configuration_"@ + zero_padded(decimal(k_network_configuration_version_major as nat), 3) + ".bin"@
}

/// The network configuration BLF's file name.
pub fn network_configuration_file_name() -> (r: String)
    ensures
        r@ == "network_configuration_"@ + zero_padded(decimal(k_network_configuration_version_major as nat), 3) + ".bin"@,
{
    versioned_name("network_configuration_", k_network_configuration_version_major, ".bin")
}

/// `hoppers_path/` and the network configuration BLF's file name.
pub fn network_configuration_file_path(hoppers_path: &String) -> (r: String)
    ensures
        r@ == join(hoppers_path@, network_configuration_file_name_spec()),
{
    let name = network_configuration_file_name();
    join_path(hoppers_path.as_str(), name.as_str())
}

pub open spec fn manifest_file_name_spec() -> Seq<char> {
    "manifest_"@ + zero_padded(decimal(k_online_file_manifest_version_major as nat), 3) + ".bin"@
}

/// The online file manifest BLF's file name.
pub fn manifest_file_name() -> (r: String)
    ensures
        r@ == "manifest_"@ + zero_padded(decimal(k_online_file_manifest_version_major as nat), 3) + ".bin"@,
{
    versioned_name("manifest_", k_online_file_manifest_version_major, ".bin")
}

/// `hoppers_path/` and the manifest's file name.
pub fn manifest_file_path(hoppers_path: &String) -> (r: String)
    ensures
        r@ == join(hoppers_path@, manifest_file_name_spec()),
{
    let name = manifest_file_name();
    join_path(hoppers_path.as_str(), name.as_str())
}

pub open spec fn matchmaking_hopper_file_name_spec() -> Seq<char> {
    "matchmaking_hopper_"@ + zero_padded(decimal(k_hopper_configuration_table_version_major as nat), 3) + ".bin"@
}

/// The hopper configuration table BLF's file name.
pub fn matchmaking_hopper_file_name() -> (r: String)
    ensures
        r@ == "matchmaking_hopper_"@ + zero_padded(decimal(k_hopper_configuration_table_version_major as nat), 3) + ".bin"@,
{
    versioned_name("matchmaking_hopper_", k_hopper_configuration_table_version_major, ".bin")
}

/// `hoppers_path/` and the hopper configuration table's file name.
pub fn matchmaking_hopper_file_path(hoppers_path: &String) -> (r: String)
    ensures
        r@ == join(hoppers_path@, matchmaking_hopper_file_name_spec()),
{
    let name = matchmaking_hopper_file_name();
    join_path(hoppers_path.as_str(), name.as_str())
}

/// The RSA manifest BLF's file name.
pub const rsa_manifest_file_name: &'static str = "rsa_manifest.bin";

/// `hoppers_path/rsa_manifest.bin`.
pub fn rsa_manifest_file_path(hoppers_path: &String) -> (r: String)
    ensures
        r@ == join(hoppers_path@, "rsa_manifest.bin"@),
{
    join_path(hoppers_path.as_str(), "rsa_manifest.bin")
}

/// The banhammer messages BLF's file name.
pub const banhammer_messages_file_name: &'static str = "matchmaking_banhammer_messages.bin";

/// `hoppers_path/language_code/matchmaking_banhammer_messages.bin`.
pub fn banhammer_messages_file_path(hoppers_path: &String, language_code: &str) -> (r: String)
    ensures
        r@ == join(join(hoppers_path@, language_code@), "matchmaking_banhammer_messages.bin"@),
{
    let dir = join_path(hoppers_path.as_str(), language_code);
    join_path(dir.as_str(), "matchmaking_banhammer_messages.bin")
}

/// The matchmaking tips BLF's file name.
pub const matchmaking_tips_file_name: &'static str = "matchmaking_tips.bin";

/// `hoppers_path/language_code/matchmaking_tips.bin`.
pub fn matchmaking_tips_file_path(hoppers_path: &String, language_code: &str) -> (r: String)
    ensures
        r@ == join(join(hoppers_path@, language_code@), "matchmaking_tips.bin"@),
{
    let dir = join_path(hoppers_path.as_str(), language_code);
    join_path(dir.as_str(), "matchmaking_tips.bin")
}

pub open spec fn motd_file_name_spec(blue: bool) -> Seq<char> {
    if blue { "blue_motd.bin"@ } else { "motd.bin"@ }
}

/// The message of the day BLF's file name; `blue` selects the Mythic one.
pub fn motd_file_name(blue: bool) -> (r: String)
    ensures
        r@ == motd_file_name_spec(blue),
        blue ==> r@ == "blue_motd.bin"@,
        !blue ==> r@ == "motd.bin"@,
{
    if blue { String::from_str("blue_motd.bin") } else { String::from_str("motd.bin") }
}

/// `hoppers_path/language_code/` and the message of the day's file name.
pub fn motd_file_path(hoppers_path: &String, language_code: &str, blue: bool) -> (r: String)
    ensures
        r@ == join(join(hoppers_path@, language_code@), motd_file_name_spec(blue)),
{
    let dir = join_path(hoppers_path.as_str(), language_code);
    let name = motd_file_name(blue);
    join_path(dir.as_str(), name.as_str())
}

pub open spec fn motd_image_file_name_spec(blue: bool) -> Seq<char> {
    if blue { "blue_motd_image.jpg"@ } else { "motd_image.jpg"@ }
}

/// The message of the day image's file name; `blue` selects the Mythic one.
pub fn motd_image_file_name(blue: bool) -> (r: String)
    ensures
        r@ == motd_image_file_name_spec(blue),
        blue ==> r@ == "blue_motd_image.jpg"@,
        !blue ==> r@ == "motd_image.jpg"@,
{
    if blue { String::from_str("blue_motd_image.jpg") } else { String::from_str("motd_image.jpg") }
}

/// `hoppers_path/language_code/` and the message of the day image's file name.
pub fn motd_image_file_path(hoppers_path: &String, language_code: &str, blue: bool) -> (r: String)
    ensures
        r@ == join(join(hoppers_path@, language_code@), motd_image_file_name_spec(blue)),
{
    let dir = join_path(hoppers_path.as_str(), language_code);
    let name = motd_image_file_name(blue);
    join_path(dir.as_str(), name.as_str())
}

pub open spec fn motd_popup_file_name_spec(blue: bool) -> Seq<char> {
    if blue { "blue_motd_popup.bin"@ } else { "motd_popup.bin"@ }
}

/// The message of the day popup BLF's file name; `blue` selects the Mythic one.
pub fn motd_popup_file_name(blue: bool) -> (r: String)
    ensures
        r@ == motd_popup_file_name_spec(blue),
        blue ==> r@ == "blue_motd_popup.bin"@,
        !blue ==> r@ == "motd_popup.bin"@,
{
    if blue { String::from_str("blue_motd_popup.bin") } else { String::from_str("motd_popup.bin") }
}

/// `hoppers_path/language_code/` and the popup's file name.
pub fn motd_popup_file_path(hoppers_path: &String, language_code: &str, blue: bool) -> (r: String)
    ensures
        r@ == join(join(hoppers_path@, language_code@), motd_popup_file_name_spec(blue)),
{
    let dir = join_path(hoppers_path.as_str(), language_code);
    let name = motd_popup_file_name(blue);
    join_path(dir.as_str(), name.as_str())
}

pub open spec fn motd_popup_image_file_name_spec(blue: bool) -> Seq<char> {
    if blue { "blue_motd_popup_image.jpg"@ } else { "motd_popup_image.jpg"@ }
}

/// The popup image's file name; `blue` selects the Mythic one.
pub fn motd_popup_image_file_name(blue: bool) -> (r: String)
    ensures
        r@ == motd_popup_image_file_name_spec(blue),
        blue ==> r@ == "blue_motd_popup_image.jpg"@,
        !blue ==> r@ == "motd_popup_image.jpg"@,
{
    if blue { String::from_str("blue_motd_popup_image.jpg") } else { String::from_str("motd_popup_image.jpg") }
}

/// `hoppers_path/language_code/` and the popup image's file name.
pub fn motd_popup_image_file_path(hoppers_path: &String, language_code: &str, blue: bool) -> (r: String)
    ensures
        r@ == join(join(hoppers_path@, language_code@), motd_popup_image_file_name_spec(blue)),
{
    let dir = join_path(hoppers_path.as_str(), language_code);
    let name = motd_popup_image_file_name(blue);
    join_path(dir.as_str(), name.as_str())
}

pub open spec fn hopper_descriptions_file_name_spec() -> Seq<char> {
    "matchmaking_hopper_descriptions_"@ + zero_padded(decimal(k_hopper_description_table_version_major as nat), 3) + ".bin"@
}

/// The hopper description table BLF's file name.
pub fn hopper_descriptions_file_name() -> (r: String)
    ensures
        r@ == "matchmaking_hopper_descriptions_"@ + zero_padded(decimal(k_hopper_description_table_version_major as nat), 3) + ".bin"@,
{
    versioned_name("matchmaking_hopper_descriptions_", k_hopper_description_table_version_major, ".bin")
}

/// `hoppers_path/language_code/` and the hopper descriptions' file name.
pub fn hopper_descriptions_file_path(hoppers_path: &String, language_code: &str) -> (r: String)
    ensures
        r@ == join(join(hoppers_path@, language_code@), hopper_descriptions_file_name_spec()),
{
    let dir = join_path(hoppers_path.as_str(), language_code);
    let name = hopper_descriptions_file_name();
    join_path(dir.as_str(), name.as_str())
}

pub open spec fn game_set_file_name_spec() -> Seq<char> {
    "game_set_"@ + zero_padded(decimal(k_game_set_version_major as nat), 3) + ".bin"@
}

/// The game set BLF's file name.
pub fn game_set_file_name() -> (r: String)
    ensures
        r@ == "game_set_"@ + zero_padded(decimal(k_game_set_version_major as nat), 3) + ".bin"@,
{
    versioned_name("game_set_", k_game_set_version_major, ".bin")
}

/// The folder of a hopper: its identifier zero-padded to 5 digits.
pub open spec fn hopper_folder_spec(hopper_identifier: u16) -> Seq<char> {
    zero_padded(decimal(hopper_identifier as nat), 5)
}

/// `hoppers_path/` the hopper's folder, then the game set's file name.
pub fn game_set_file_path(hoppers_path: &String, hopper_identifier: u16) -> (r: String)
    ensures
        r@ == join(join(hoppers_path@, hopper_folder_spec(hopper_identifier)), game_set_file_name_spec()),
{
    let folder = hopper_folder_name(hopper_identifier);
    let dir = join_path(hoppers_path.as_str(), folder.as_str());
    let name = game_set_file_name();
    join_path(dir.as_str(), name.as_str())
}

/// `hoppers_path/` the hopper's folder, then the game variant's name with the
/// packed game variant chunk version: `name_010.bin`.
pub fn game_variant_file_path(hoppers_path: &String, hopper_identifier: u16, game_variant_file_name: &String) -> (r: String)
    ensures
        r@ == join(join(hoppers_path@, hopper_folder_spec(hopper_identifier)),
            game_variant_file_name@ + "_"@ + zero_padded(decimal(k_packed_game_variant_version_major as nat), 3) + ".bin"@),
{
    let folder = hopper_folder_name(hopper_identifier);
    let dir = join_path(hoppers_path.as_str(), folder.as_str());
    let mut prefix = game_variant_file_name.clone();
    prefix.append("_");
    let name = versioned_name(prefix.as_str(), k_packed_game_variant_version_major, ".bin");
    join_path(dir.as_str(), name.as_str())
}

/// The folder of a hopper's map variants.
pub const map_variants_folder_name: &'static str = "map_variants";

/// `hoppers_path/` the hopper's folder, `map_variants/`, then the map
/// variant's name with the packed map variant chunk version: `name_012.bin`.
pub fn map_variant_file_path(hoppers_path: &String, hopper_identifier: u16, map_variant_file_name: &String) -> (r: String)
    ensures
        r@ == join(join(join(hoppers_path@, hopper_folder_spec(hopper_identifier)), "map_variants"@),
            map_variant_file_name@ + "_"@ + zero_padded(decimal(k_packed_map_variant_version_major as nat), 3) + ".bin"@),
{
    let folder = hopper_folder_name(hopper_identifier);
    let dir = join_path(hoppers_path.as_str(), folder.as_str());
    let dir = join_path(dir.as_str(), "map_variants");
    let mut prefix = map_variant_file_name.clone();
    prefix.append("_");
    let name = versioned_name(prefix.as_str(), k_packed_map_variant_version_major, ".bin");
    join_path(dir.as_str(), name.as_str())
}

/// The path a file of the hopper directory has in the online file manifest:
/// `/title/<hopper directory>/<file>`.
pub fn manifest_entry_path(hopper_directory_name: &str, file_name: &str) -> (r: String)
    ensures
        r@ == join(join("/title"@, hopper_directory_name@), file_name@),
{
    proof { reveal_strlit("/title"); }
    let dir = join_path("/title", hopper_directory_name);
    join_path(dir.as_str(), file_name)
}

/// The path a language's file of the hopper directory has in the online file
/// manifest: `/title/<hopper directory>/<language>/<file>`.
pub fn manifest_language_entry_path(hopper_directory_name: &str, language_code: &str, file_name: &str) -> (r: String)
    ensures
        r@ == join(join(join("/title"@, hopper_directory_name@), language_code@), file_name@),
{
    proof { reveal_strlit("/title"); }
    let dir = join_path("/title", hopper_directory_name);
    let lang = join_path(dir.as_str(), language_code);
    join_path(lang.as_str(), file_name)
}

/// The Mythic ("blue") names and the ordinary ones, as the title storage
/// layout names them: `blue` selects the Mythic name and only it.
pub proof fn lemma_output_blue_names()
    ensures
        motd_file_name_spec(true) == "blue_motd.bin"@,
        motd_file_name_spec(false) == "motd.bin"@,
        motd_image_file_name_spec(true) == "blue_motd_image.jpg"@,
        motd_image_file_name_spec(false) == "motd_image.jpg"@,
        motd_popup_file_name_spec(true) == "blue_motd_popup.bin"@,
        motd_popup_file_name_spec(false) == "motd_popup.bin"@,
        motd_popup_image_file_name_spec(true) == "blue_motd_popup_image.jpg"@,
        motd_popup_image_file_name_spec(false) == "motd_popup_image.jpg"@,
{
}

} // verus!
