//! StringID to string resolution for the Reach MCC Forge palette: the
//! variant-name stringIDs of the palette (such as 0x6BC, 0x6BD) name
//! variants such as "warthog_default" and "warthog_gauss". The table is read
//! from JSON lines, one `{"sid":<id>,"name":"<name>"}` object per line.

use std::collections::HashMap;
use vstd::prelude::*;
use crate::scan::{
    all_whitespace, all_whitespace_exec, chars_of, find_from, find_from_exec, lemma_find_from,
    lemma_newline_from, line_at, line_at_exec, newline_from, parse_u32, parse_u32_spec, slice_chars,
    string_of, unescape, unescape_exec,
};

verus! {

broadcast use vstd::std_specs::hash::group_hash_axioms;

/// `"sid":`, the key of a line's stringID.
pub open spec fn sid_key() -> Seq<char> {
    seq!['"', 's', 'i', 'd', '"', ':']
}

/// `"name":"`, the key that opens a line's name.
pub open spec fn name_key() -> Seq<char> {
    seq!['"', 'n', 'a', 'm', 'e', '"', ':', '"']
}

/// `"}`, the end of a line's name and object.
pub open spec fn object_end() -> Seq<char> {
    seq!['"', '}']
}

/// Whether a line can be read at all: blank, or holding `"sid":` with a `,`
/// after it. On any other line the reader gives up.
pub open spec fn stringid_line_readable(line: Seq<char>) -> bool {
    ||| all_whitespace(line)
    ||| match find_from(line, sid_key(), 0) {
        Some(p) => find_from(line, seq![','], p + 6) is Some,
        None => false,
    }
}

/// The stringID a readable, non-blank line gives: the text between `"sid":`
/// and the next `,` as a decimal `u32`, or 0 where it does not parse.
pub open spec fn stringid_of_line(line: Seq<char>) -> u32 {
    let start = (find_from(line, sid_key(), 0)->0 + 6) as nat;
    let end = find_from(line, seq![','], start)->0;
    match parse_u32_spec(line.subrange(start as int, end as int)) {
        Some(v) => v,
        None => 0,
    }
}

/// The entry a readable line gives: none for a blank line or one whose
/// `"name":"` is missing or not closed by `"}`; else its stringID and its
/// name, unescaped.
pub open spec fn stringid_entry(line: Seq<char>) -> Option<(u32, Seq<char>)> {
    if all_whitespace(line) {
        None
    } else {
        match find_from(line, name_key(), 0) {
            None => None,
            Some(q) => match find_from(line, object_end(), q + 8) {
                None => None,
                Some(e) => Some((stringid_of_line(line), unescape(line.subrange((q + 8) as int, e as int)))),
            },
        }
    }
}

/// Whether every line of `s` from index `i` on is readable.
pub open spec fn stringid_lines_readable_from(s: Seq<char>, i: nat) -> bool
    decreases s.len() + 1 - i,
{
    if i >= s.len() {
        true
    } else {
        proof {
            lemma_newline_from(s, i);
        }
        stringid_line_readable(line_at(s, i)) && stringid_lines_readable_from(s, newline_from(s, i) + 1)
    }
}

/// The table that the lines of `s` from index `i` on make, entered in order
/// into `m`: a later line with the same stringID replaces the name.
pub open spec fn stringid_table_from(s: Seq<char>, i: nat, m: Map<u32, Seq<char>>) -> Map<u32, Seq<char>>
    decreases s.len() + 1 - i,
{
    if i >= s.len() {
        m
    } else {
        proof {
            lemma_newline_from(s, i);
        }
        let next = match stringid_entry(line_at(s, i)) {
            Some(kv) => m.insert(kv.0, kv.1),
            None => m,
        };
        stringid_table_from(s, newline_from(s, i) + 1, next)
    }
}

/// The table of the whole text `s`.
pub open spec fn stringid_table(s: Seq<char>) -> Map<u32, Seq<char>> {
    stringid_table_from(s, 0, Map::empty())
}

/// The names of a table, as character sequences.
pub open spec fn names_view(m: Map<u32, String>) -> Map<u32, Seq<char>> {
    m.map_values(|v: String| v@)
}

/// The entry of one readable line.
pub fn stringid_entry_exec(line: &Vec<char>) -> (r: Option<(u32, String)>)
    requires
        stringid_line_readable(line@),
    ensures
        match r {
            Some(kv) => stringid_entry(line@) == Some((kv.0, kv.1@)),
            None => stringid_entry(line@) is None,
        },
{
    if all_whitespace_exec(line) {
        return None;
    }
    let sid_key_v: Vec<char> = vec!['"', 's', 'i', 'd', '"', ':'];
    let comma: Vec<char> = vec![','];
    let name_key_v: Vec<char> = vec!['"', 'n', 'a', 'm', 'e', '"', ':', '"'];
    let end_v: Vec<char> = vec!['"', '}'];
    assert(sid_key_v@ =~= sid_key());
    assert(comma@ =~= seq![',']);
    assert(name_key_v@ =~= name_key());
    assert(end_v@ =~= object_end());
    proof {
        lemma_find_from(line@, sid_key(), 0);
    }
    let p = match find_from_exec(line, &sid_key_v, 0) {
        Some(p) => p,
        None => {
            return None;
        },
    };
    assert(sid_key().len() == 6);
    assert(p + 6 <= line.len());
    let start = p + 6;
    proof {
        lemma_find_from(line@, seq![','], start as nat);
    }
    let c = match find_from_exec(line, &comma, start) {
        Some(c) => c,
        None => {
            return None;
        },
    };
    let digits = slice_chars(line, start, c);
    let sid: u32 = match parse_u32(&digits) {
        Some(v) => v,
        None => 0,
    };
    assert(sid == stringid_of_line(line@));
    proof {
        lemma_find_from(line@, name_key(), 0);
    }
    let q = match find_from_exec(line, &name_key_v, 0) {
        Some(q) => q,
        None => {
            return None;
        },
    };
    proof {
        lemma_find_from(line@, object_end(), (q + 8) as nat);
    }
    let e = match find_from_exec(line, &end_v, q + 8) {
        Some(e) => e,
        None => {
            return None;
        },
    };
    let raw = slice_chars(line, q + 8, e);
    let name = unescape_exec(&raw);
    Some((sid, string_of(&name)))
}

/// The stringID table of a JSON-lines text, one `{"sid":<id>,"name":"<name>"}`
/// object per line: each line that holds a `"name":"…"}` enters its stringID
/// and its unescaped name, a later line replacing an earlier one with the
/// same stringID. Blank lines are skipped; every other line must hold
/// `"sid":` followed somewhere by a `,`.
pub fn forge_halo_stringid_table(jsonl: &str) -> (table: HashMap<u32, String>)
    requires
        stringid_lines_readable_from(jsonl@, 0),
    ensures
        names_view(table@) == stringid_table(jsonl@),
{
    let s = chars_of(jsonl);
    let mut out: HashMap<u32, String> = HashMap::new();
    assert(names_view(out@) =~= Map::<u32, Seq<char>>::empty());
    let mut i: usize = 0;
    while i < s.len()
        invariant
            s@ == jsonl@,
            stringid_lines_readable_from(s@, i as nat),
            stringid_table(s@) == stringid_table_from(s@, i as nat, names_view(out@)),
        decreases s.len() - i,
    {
        proof {
            lemma_newline_from(s@, i as nat);
        }
        let (line, e) = line_at_exec(&s, i);
        let ghost before = names_view(out@);
        match stringid_entry_exec(&line) {
            Some(kv) => {
                let (k, v) = kv;
                let ghost vv = v@;
                out.insert(k, v);
                assert(names_view(out@) =~= before.insert(k, vv));
            },
            None => {},
        }
        if e >= s.len() {
            assert(stringid_table_from(s@, (e + 1) as nat, names_view(out@)) == names_view(out@));
            return out;
        }
        i = e + 1;
    }
    out
}

} // verus!
