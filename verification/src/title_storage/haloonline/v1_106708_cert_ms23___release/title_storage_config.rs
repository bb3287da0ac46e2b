use vstd::prelude::*;
use vstd::string::{StringExecFns, StrSliceExecFns};
use super::{join, join_path};
use crate::result::{BLFLibError, BLFLibResult};

verus! {

/// `name` followed by `ext`.
pub fn with_extension(name: &str, ext: &str) -> (r: String)
    ensures
        r@ == name@ + ext@,
{
    let mut r = String::from_str(name);
    r.append(ext);
    r
}

/// The folder of the banhammer messages, one text file per language.
pub const banhammer_messages_folder_name: &'static str = "banhammer_messages";

/// `config_folder/banhammer_messages/language_code.txt`.
pub fn banhammer_messages_file_path(config_folder: &String, language_code: &str) -> (r: String)
    ensures
        r@ == join(join(config_folder@, "banhammer_messages"@), language_code@ + ".txt"@),
{
    let dir = join_path(config_folder.as_str(), "banhammer_messages");
    let name = with_extension(language_code, ".txt");
    join_path(dir.as_str(), name.as_str())
}

/// The folder of the RSA signatures.
pub const rsa_signatures_folder_name: &'static str = "rsa_signatures";

/// `config_folder/rsa_signatures`.
pub fn rsa_signatures_folder_path(config_folder: &String) -> (r: String)
    ensures
        r@ == join(config_folder@, "rsa_signatures"@),
{
    join_path(config_folder.as_str(), "rsa_signatures")
}

/// The folder of the matchmaking tips, one text file per language.
pub const matchmaking_tips_folder_name: &'static str = "matchmaking_tips";

/// `config_folder/matchmaking_tips/language_code.txt`.
pub fn matchmaking_tips_file_path(config_folder: &String, language_code: &str) -> (r: String)
    ensures
        r@ == join(join(config_folder@, "matchmaking_tips"@), language_code@ + ".txt"@),
{
    let dir = join_path(config_folder.as_str(), "matchmaking_tips");
    let name = with_extension(language_code, ".txt");
    join_path(dir.as_str(), name.as_str())
}

pub open spec fn motd_folder_name_spec(blue: bool) -> Seq<char> {
    if blue { "motd_mythic"@ } else { "motd"@ }
}

/// The folder of the messages of the day; `blue` selects the Mythic one.
pub fn motd_folder_name(blue: bool) -> (r: String)
    ensures
        r@ == motd_folder_name_spec(blue),
        blue ==> r@ == "motd_mythic"@,
        !blue ==> r@ == "motd"@,
{
    if blue { String::from_str("motd_mythic") } else { String::from_str("motd") }
}

/// The message of the day text of a language.
pub fn motd_file_path(config_folder: &String, language_code: &str, blue: bool) -> (r: String)
    ensures
        r@ == join(join(config_folder@, motd_folder_name_spec(blue)), language_code@ + ".txt"@),
{
    let folder = motd_folder_name(blue);
    let dir = join_path(config_folder.as_str(), folder.as_str());
    let name = with_extension(language_code, ".txt");
    join_path(dir.as_str(), name.as_str())
}

/// The message of the day image of a language.
pub fn motd_image_file_path(config_folder: &String, language_code: &str, blue: bool) -> (r: String)
    ensures
        r@ == join(join(config_folder@, motd_folder_name_spec(blue)), language_code@ + ".jpg"@),
{
    let folder = motd_folder_name(blue);
    let dir = join_path(config_folder.as_str(), folder.as_str());
    let name = with_extension(language_code, ".jpg");
    join_path(dir.as_str(), name.as_str())
}

pub open spec fn motd_popup_folder_name_spec(blue: bool) -> Seq<char> {
    if blue { "popup_mythic"@ } else { "popup"@ }
}

/// The folder of the popups; `blue` selects the Mythic one.
pub fn motd_popup_folder_name(blue: bool) -> (r: String)
    ensures
        r@ == motd_popup_folder_name_spec(blue),
        blue ==> r@ == "popup_mythic"@,
        !blue ==> r@ == "popup"@,
{
    if blue { String::from_str("popup_mythic") } else { String::from_str("popup") }
}

/// The popup of a language.
pub fn motd_popup_file_path(config_folder: &String, language_code: &str, blue: bool) -> (r: String)
    ensures
        r@ == join(join(config_folder@, motd_popup_folder_name_spec(blue)), language_code@ + ".json"@),
{
    let folder = motd_popup_folder_name(blue);
    let dir = join_path(config_folder.as_str(), folder.as_str());
    let name = with_extension(language_code, ".json");
    join_path(dir.as_str(), name.as_str())
}

/// The popup image of a language.
pub fn motd_popup_image_file_path(config_folder: &String, language_code: &str, blue: bool) -> (r: String)
    ensures
        r@ == join(join(config_folder@, motd_popup_folder_name_spec(blue)), language_code@ + ".jpg"@),
{
    let folder = motd_popup_folder_name(blue);
    let dir = join_path(config_folder.as_str(), folder.as_str());
    let name = with_extension(language_code, ".jpg");
    join_path(dir.as_str(), name.as_str())
}

/// The list of active hoppers, one folder name per line.
pub const active_hoppers_file_name: &'static str = "active_hoppers.txt";

/// `config_folder/active_hoppers.txt`.
pub fn active_hoppers_file_path(config_folder: &String) -> (r: String)
    ensures
        r@ == join(config_folder@, "active_hoppers.txt"@),
{
    join_path(config_folder.as_str(), "active_hoppers.txt")
}

/// A hopper's game set.
pub const game_set_file_name: &'static str = "game_set.csv";

/// `config_folder/hoppers/hopper_folder/game_set.csv`.
pub fn game_set_file_path(config_folder: &String, hopper_folder: &String) -> (r: String)
    ensures
        r@ == join(join(join(config_folder@, "hoppers"@), hopper_folder@), "game_set.csv"@),
{
    let dir = join_path(config_folder.as_str(), "hoppers");
    let dir = join_path(dir.as_str(), hopper_folder.as_str());
    join_path(dir.as_str(), "game_set.csv")
}

/// The folder of the game variants.
pub const game_variants_folder_name: &'static str = "game_variants";

/// `config_folder/game_variants/variant_file_name.json`.
pub fn game_variant_file_path(config_folder: &String, variant_file_name: &String) -> (r: String)
    ensures
        r@ == join(join(config_folder@, "game_variants"@), variant_file_name@ + ".json"@),
{
    let dir = join_path(config_folder.as_str(), "game_variants");
    let name = with_extension(variant_file_name.as_str(), ".json");
    join_path(dir.as_str(), name.as_str())
}

/// The folder of the map variants.
pub const map_variants_folder_name: &'static str = "map_variants";

/// `config_folder/map_variants/variant_file_name.json`.
pub fn map_variant_file_path(config_folder: &String, variant_file_name: &String) -> (r: String)
    ensures
        r@ == join(join(config_folder@, "map_variants"@), variant_file_name@ + ".json"@),
{
    let dir = join_path(config_folder.as_str(), "map_variants");
    let name = with_extension(variant_file_name.as_str(), ".json");
    join_path(dir.as_str(), name.as_str())
}

/// The folder of the hoppers.
pub const matchmaking_hoppers_folder_name: &'static str = "hoppers";

/// A hopper's configuration.
pub const matchmaking_hopper_configuration_file_name: &'static str = "configuration.json";

/// `config_folder/hoppers/hopper_folder/configuration.json`.
pub fn matchmaking_hopper_configuration_file_path(config_folder: &String, hopper_folder: &String) -> (r: String)
    ensures
        r@ == join(join(join(config_folder@, "hoppers"@), hopper_folder@), "configuration.json"@),
{
    let dir = join_path(config_folder.as_str(), "hoppers");
    let dir = join_path(dir.as_str(), hopper_folder.as_str());
    join_path(dir.as_str(), "configuration.json")
}

/// The hopper categories.
pub const matchmaking_hopper_categories_file_name: &'static str = "hopper_categories.json";

/// `config_folder/hopper_categories.json`.
pub fn matchmaking_hopper_categories_file_path(config_folder: &String) -> (r: String)
    ensures
        r@ == join(config_folder@, "hopper_categories.json"@),
{
    join_path(config_folder.as_str(), "hopper_categories.json")
}

/// The network configuration's file name.
pub fn network_configuration_file_name() -> (r: String)
    ensures
        r@ == "network_configuration.json"@,
{
    String::from_str("network_configuration.json")
}

/// `config_folder/network_configuration.json`.
pub fn network_configuration_file_path(config_folder: &String) -> (r: String)
    ensures
        r@ == join(config_folder@, "network_configuration.json"@),
{
    let name = network_configuration_file_name();
    join_path(config_folder.as_str(), name.as_str())
}

/// One row of a hopper's game set: a map and game variant pairing.
#[derive(PartialEq, Eq, Debug, Clone)]
pub struct game_set_config_row {
    pub map_variant_file_name: String,
    pub game_variant_file_name: String,
    pub weight: u32,
    pub minimum_player_count: u8,
    pub skip_after_veto: bool,
    pub optional: bool,
}

/// A hopper's game set.
#[derive(PartialEq, Eq, Debug, Clone)]
pub struct game_set_config {
    pub entries: Vec<game_set_config_row>,
}


/// What `regex::Regex::new(pattern)` followed by `captures(haystack)` gives
/// for the whole match: the matched text, no match, or the pattern's
/// compile error message.
pub uninterp spec fn regex_whole_match(pattern: Seq<char>, haystack: Seq<char>) -> Result<Option<Seq<char>>, Seq<char>>;

/// Compiles `pattern` with `regex::Regex::new` and returns the text of the
/// whole match of `captures(haystack)`, `None` when it does not match, or the
/// compile error's message. Its contract only names that result.
#[verifier::external_body]
fn regex_first_match(pattern: &str, haystack: &str) -> (r: Result<Option<String>, String>)
    ensures
        match r {
            Ok(Some(m)) => regex_whole_match(pattern@, haystack@) == Ok::<Option<Seq<char>>, Seq<char>>(Some(m@)),
            Ok(None) => regex_whole_match(pattern@, haystack@) == Ok::<Option<Seq<char>>, Seq<char>>(None),
            Err(e) => regex_whole_match(pattern@, haystack@) == Err::<Option<Seq<char>>, Seq<char>>(e@),
        },
{
    match regex::Regex::new(pattern) {
        Err(e) => Err(e.to_string()),
        Ok(re) => match re.captures(haystack) {
            None => Ok(None),
            Some(c) => match c.get(0) {
                None => Ok(None),
                Some(m) => Ok(Some(m.as_str().to_string())),
            },
        },
    }
}

/// The pattern of a hopper folder's identifier: its leading 1 to 5 digits.
pub const hopper_id_pattern: &'static str = "^[0-9]{1,5}";

/// Whether a character is an ASCII decimal digit.
pub open spec fn is_digit(c: char) -> bool {
    '0' <= c <= '9'
}

/// The decimal value of a sequence of digits.
pub open spec fn digits_value(s: Seq<char>) -> nat
    decreases s.len(),
{
    if s.len() == 0 { 0 } else { 10 * digits_value(s.drop_last()) + (s.last() as nat - 48) as nat }
}

/// The index of the first digit of `s` at which parsing fails, scanning left
/// to right: a non-digit, or a digit after which the value exceeds `u16::MAX`.
pub open spec fn first_failure(s: Seq<char>) -> Option<int> {
    if exists|i: int| 0 <= i < s.len() && (!is_digit(s[i]) || digits_value(s.take(i + 1)) > 65535) {
        Some(choose|i: int| 0 <= i < s.len() && (!is_digit(s[i]) || digits_value(s.take(i + 1)) > 65535)
            && forall|j: int| 0 <= j < i ==> is_digit(#[trigger] s[j]) && digits_value(s.take(j + 1)) <= 65535)
    } else {
        None
    }
}

/// What `str::parse::<u16>` gives: the value, or the message of its error.
pub open spec fn parse_u16_spec(s: Seq<char>) -> Result<u16, Seq<char>> {
    if s.len() == 0 {
        Err("cannot parse integer from empty string"@)
    } else if s.len() == 1 && (s[0] == '+' || s[0] == '-') {
        Err("invalid digit found in string"@)
    } else {
        let digits = if s[0] == '+' { s.drop_first() } else { s };
        match first_failure(digits) {
            None => Ok(digits_value(digits) as u16),
            Some(i) => if is_digit(digits[i]) {
                Err("number too large to fit in target type"@)
            } else {
                Err("invalid digit found in string"@)
            },
        }
    }
}

/// Parses a decimal `u16` as `str::parse::<u16>` does: an optional `+`, then
/// digits; an error names the first problem found left to right.
pub fn parse_u16(s: &str) -> (r: Result<u16, String>)
    ensures
        match r {
            Ok(v) => parse_u16_spec(s@) == Ok::<u16, Seq<char>>(v),
            Err(e) => parse_u16_spec(s@) == Err::<u16, Seq<char>>(e@),
        },
{
    proof {
        reveal_strlit("cannot parse integer from empty string");
        reveal_strlit("invalid digit found in string");
        reveal_strlit("number too large to fit in target type");
    }
    let n = s.unicode_len();
    if n == 0 {
        return Err(String::from_str("cannot parse integer from empty string"));
    }
    let c0 = s.get_char(0);
    if n == 1 && (c0 == '+' || c0 == '-') {
        return Err(String::from_str("invalid digit found in string"));
    }
    let start: usize = if c0 == '+' { 1 } else { 0 };
    let ghost digits = if s@[0] == '+' { s@.drop_first() } else { s@ };
    let mut value: u32 = 0;
    let mut i: usize = start;
    while i < n
        invariant
            n == s@.len(),
            n >= 1,
            start == (if s@[0] == '+' { 1usize } else { 0usize }),
            digits == (if s@[0] == '+' { s@.drop_first() } else { s@ }),
            start <= i <= n,
            value == digits_value(digits.take(i - start)),
            value <= 65535,
            forall|j: int| 0 <= j < i - start ==> is_digit(#[trigger] digits[j]) && digits_value(digits.take(j + 1)) <= 65535,
        decreases n - i,
    {
        let c = s.get_char(i);
        let ghost k: int = i - start;
        assert(c == digits[k]);
        assert(digits.take(k + 1).drop_last() =~= digits.take(k));
        if !('0' <= c && c <= '9') {
            assert(first_failure(digits) == Some(k)) by {
                assert(0 <= k < digits.len() && !is_digit(digits[k]));
            }
            return Err(String::from_str("invalid digit found in string"));
        }
        let d: u32 = (c as u32) - 48;
        let next: u32 = value * 10 + d;
        if next > 65535 {
            assert(first_failure(digits) == Some(k)) by {
                assert(digits_value(digits.take(k + 1)) == next);
            }
            return Err(String::from_str("number too large to fit in target type"));
        }
        value = next;
        i = i + 1;
    }
    assert(digits.take(digits.len() as int) =~= digits);
    assert(first_failure(digits) is None);
    Ok(value as u16)
}

/// The hopper identifier of a folder, from the outcome of matching
/// `hopper_id_pattern` against its name: the matched digits' value; an error
/// when the pattern did not compile, nothing matched, or the digits do not
/// parse as a `u16`.
pub fn hopper_id_from_match(m: Result<Option<String>, String>, hopper_folder: &String) -> (r: BLFLibResult<u16>)
    ensures
        match m {
            Err(e) => r matches Err(BLFLibError::Message(x)) && x@ == e@,
            Ok(None) => r matches Err(BLFLibError::Message(x)) && x@ == "No hopper ID found in folder "@ + hopper_folder@,
            Ok(Some(d)) => match parse_u16_spec(d@) {
                Ok(v) => r == Ok::<u16, BLFLibError>(v),
                Err(e) => r matches Err(BLFLibError::Message(x)) && x@ == e,
            },
        },
{
    match m {
        Err(e) => Err(BLFLibError::Message(e)),
        Ok(None) => {
            let mut msg = String::from_str("No hopper ID found in folder ");
            msg.append(hopper_folder.as_str());
            Err(BLFLibError::Message(msg))
        },
        Ok(Some(d)) => match parse_u16(d.as_str()) {
            Ok(v) => Ok(v),
            Err(e) => Err(BLFLibError::Message(e)),
        },
    }
}

/// The hopper identifier of a hopper folder: the value of its leading 1 to 5
/// digits (`^[0-9]{1,5}`); an error when it does not start with a digit or
/// the digits exceed `u16::MAX`.
pub fn get_hopper_id_from_hopper_folder_name(hopper_folder: &String) -> (r: BLFLibResult<u16>)
    ensures
        match regex_whole_match(hopper_id_pattern@, hopper_folder@) {
            Err(e) => r matches Err(BLFLibError::Message(x)) && x@ == e,
            Ok(None) => r matches Err(BLFLibError::Message(x)) && x@ == "No hopper ID found in folder "@ + hopper_folder@,
            Ok(Some(d)) => match parse_u16_spec(d) {
                Ok(v) => r == Ok::<u16, BLFLibError>(v),
                Err(e) => r matches Err(BLFLibError::Message(x)) && x@ == e,
            },
        },
{
    let m = regex_first_match(hopper_id_pattern, hopper_folder.as_str());
    hopper_id_from_match(m, hopper_folder)
}
/// The Mythic ("blue") names and the ordinary ones, as the title storage
/// layout names them: `blue` selects the Mythic name and only it.
pub proof fn lemma_config_blue_names()
    ensures
        motd_folder_name_spec(true) == "motd_mythic"@,
        motd_folder_name_spec(false) == "motd"@,
        motd_popup_folder_name_spec(true) == "popup_mythic"@,
        motd_popup_folder_name_spec(false) == "popup"@,
{
}

} // verus!
