//! Friendly tag names for Reach MCC `.map` files.
//!
//! `forge_halo.map` is the canonical Forge sandbox map; its tags cover every
//! object that can appear in a Reach MCC map variant's palette. The table is
//! keyed by datum index (the 32-bit value that tag references store) and
//! group code (the 4-character tag class, such as `vehi`), and is read from
//! JSON lines, one `{"idx":<index>,"grp":"<group>","name":"<path>"}` object
//! per line.

use vstd::prelude::*;
use vstd::utf8::encode_utf8;
use crate::scan::{
    chars_of, find_from, find_from_exec, lemma_find_from, lemma_newline_from, line_at, line_at_exec,
    newline_from, non_digit_from, non_digit_from_exec, lemma_non_digit_from, parse_u32, parse_u32_spec,
    slice_chars, string_of, unescape, unescape_exec,
};
use super::forge_stringids::{name_key, object_end};

verus! {

/// `"idx":`, the key of a line's datum index.
pub open spec fn idx_key() -> Seq<char> {
    seq!['"', 'i', 'd', 'x', '"', ':']
}

/// `"grp":"`, the key that opens a line's group code.
pub open spec fn grp_key() -> Seq<char> {
    seq!['"', 'g', 'r', 'p', '"', ':', '"']
}

/// The run of ASCII digits that follows the first `key` of `line`, as a `u32`:
/// none where `key` is missing, where the digits run to the end of the line,
/// or where they do not parse.
pub open spec fn extract_u32(line: Seq<char>, key: Seq<char>) -> Option<u32> {
    match find_from(line, key, 0) {
        None => None,
        Some(p) => match non_digit_from(line, p + key.len()) {
            None => None,
            Some(e) => parse_u32_spec(line.subrange((p + key.len()) as int, e as int)),
        },
    }
}

/// The text between the first `prefix` of `line` and the next `end` after it.
pub open spec fn extract_str(line: Seq<char>, prefix: Seq<char>, end: Seq<char>) -> Option<Seq<char>> {
    match find_from(line, prefix, 0) {
        None => None,
        Some(p) => match find_from(line, end, p + prefix.len()) {
            None => None,
            Some(e) => Some(line.subrange((p + prefix.len()) as int, e as int)),
        },
    }
}

/// The entry a line gives: its datum index and the UTF-8 bytes of its group
/// code, with its name unescaped. None for an empty line, a line that lacks
/// one of the three fields, or a group code that is not 4 bytes long.
pub open spec fn tag_entry(line: Seq<char>) -> Option<((u32, Seq<u8>), Seq<char>)> {
    if line.len() == 0 {
        None
    } else {
        match (extract_u32(line, idx_key()), extract_str(line, grp_key(), seq!['"']),
            extract_str(line, name_key(), object_end())) {
            (Some(i), Some(g), Some(n)) => if encode_utf8(g).len() == 4 {
                Some(((i, encode_utf8(g)), unescape(n)))
            } else {
                None
            },
            _ => None,
        }
    }
}

/// The table that the lines of `s` from index `i` on make, entered in order
/// into `m`: a later line with the same key replaces the name.
pub open spec fn tag_table_from(s: Seq<char>, i: nat, m: Map<(u32, Seq<u8>), Seq<char>>) -> Map<(u32, Seq<u8>), Seq<char>>
    decreases s.len() + 1 - i,
{
    if i >= s.len() {
        m
    } else {
        proof {
            lemma_newline_from(s, i);
        }
        let next = match tag_entry(line_at(s, i)) {
            Some(kv) => m.insert(kv.0, kv.1),
            None => m,
        };
        tag_table_from(s, newline_from(s, i) + 1, next)
    }
}

/// The table of the whole text `s`.
pub open spec fn tag_table(s: Seq<char>) -> Map<(u32, Seq<u8>), Seq<char>> {
    tag_table_from(s, 0, Map::empty())
}

/// The key of an entry, with its group code as a byte sequence.
pub open spec fn tag_key(e: ((u32, [u8; 4]), String)) -> (u32, Seq<u8>) {
    (e.0.0, e.0.1@)
}

/// Whether the entries `v` hold exactly the table `m`: each key once, with
/// its name in `m`, and every key of `m` among them.
pub open spec fn entries_hold(v: Seq<((u32, [u8; 4]), String)>, m: Map<(u32, Seq<u8>), Seq<char>>) -> bool {
    &&& forall|i: int, j: int| 0 <= i < j < v.len() ==> tag_key(#[trigger] v[i]) != tag_key(#[trigger] v[j])
    &&& forall|i: int| 0 <= i < v.len() ==> m.contains_key(tag_key(#[trigger] v[i])) && m[tag_key(v[i])] == v[i].1@
    &&& forall|k: (u32, Seq<u8>)| m.contains_key(k) ==> exists|i: int| 0 <= i < v.len() && tag_key(#[trigger] v[i]) == k
}

fn extract_u32_exec(line: &Vec<char>, key: &Vec<char>) -> (r: Option<u32>)
    ensures
        r == extract_u32(line@, key@),
{
    proof {
        lemma_find_from(line@, key@, 0);
    }
    let p = match find_from_exec(line, key, 0) {
        Some(p) => p,
        None => {
            return None;
        },
    };
    assert(p + key.len() <= line.len());
    let start = p + key.len();
    proof {
        lemma_non_digit_from(line@, start as nat);
    }
    let e = match non_digit_from_exec(line, start) {
        Some(e) => e,
        None => {
            return None;
        },
    };
    let digits = slice_chars(line, start, e);
    parse_u32(&digits)
}

fn extract_str_exec(line: &Vec<char>, prefix: &Vec<char>, end: &Vec<char>) -> (r: Option<Vec<char>>)
    ensures
        match r {
            Some(v) => extract_str(line@, prefix@, end@) == Some(v@),
            None => extract_str(line@, prefix@, end@) is None,
        },
{
    proof {
        lemma_find_from(line@, prefix@, 0);
    }
    let p = match find_from_exec(line, prefix, 0) {
        Some(p) => p,
        None => {
            return None;
        },
    };
    assert(p + prefix.len() <= line.len());
    let start = p + prefix.len();
    proof {
        lemma_find_from(line@, end@, start as nat);
    }
    let e = match find_from_exec(line, end, start) {
        Some(e) => e,
        None => {
            return None;
        },
    };
    Some(slice_chars(line, start, e))
}

/// The entry of one line.
pub fn tag_entry_exec(line: &Vec<char>) -> (r: Option<((u32, [u8; 4]), String)>)
    ensures
        match r {
            Some(e) => tag_entry(line@) == Some((tag_key(e), e.1@)),
            None => tag_entry(line@) is None,
        },
{
    if line.len() == 0 {
        return None;
    }
    let idx_key_v: Vec<char> = vec!['"', 'i', 'd', 'x', '"', ':'];
    let grp_key_v: Vec<char> = vec!['"', 'g', 'r', 'p', '"', ':', '"'];
    let quote: Vec<char> = vec!['"'];
    let name_key_v: Vec<char> = vec!['"', 'n', 'a', 'm', 'e', '"', ':', '"'];
    let end_v: Vec<char> = vec!['"', '}'];
    assert(idx_key_v@ =~= idx_key());
    assert(grp_key_v@ =~= grp_key());
    assert(quote@ =~= seq!['"']);
    assert(name_key_v@ =~= name_key());
    assert(end_v@ =~= object_end());
    let idx = extract_u32_exec(line, &idx_key_v);
    let grp = extract_str_exec(line, &grp_key_v, &quote);
    let name = extract_str_exec(line, &name_key_v, &end_v);
    match (idx, grp, name) {
        (Some(i), Some(g), Some(n)) => {
            let gs = string_of(&g);
            let bytes = gs.as_str().as_bytes();
            if bytes.len() == 4 {
                let code: [u8; 4] = [bytes[0], bytes[1], bytes[2], bytes[3]];
                assert(code@ =~= encode_utf8(g@));
                let plain = unescape_exec(&n);
                Some(((i, code), string_of(&plain)))
            } else {
                None
            }
        },
        _ => None,
    }
}

/// Enters `e` into the entries `v`, replacing the name of an entry with the
/// same key.
fn upsert(v: &mut Vec<((u32, [u8; 4]), String)>, e: ((u32, [u8; 4]), String), Ghost(m): Ghost<Map<(u32, Seq<u8>), Seq<char>>>)
    requires
        entries_hold(old(v)@, m),
    ensures
        entries_hold(final(v)@, m.insert(tag_key(e), e.1@)),
{
    let ghost k = tag_key(e);
    let ghost val = e.1@;
    let mut j: usize = 0;
    while j < v.len()
        invariant
            entries_hold(v@, m),
            k == tag_key(e),
            val == e.1@,
            j <= v.len(),
            forall|i: int| 0 <= i < j ==> tag_key(#[trigger] v@[i]) != k,
        decreases v.len() - j,
    {
        let same = v[j].0.0 == e.0.0 && v[j].0.1[0] == e.0.1[0] && v[j].0.1[1] == e.0.1[1]
            && v[j].0.1[2] == e.0.1[2] && v[j].0.1[3] == e.0.1[3];
        if same {
            assert(v@[j as int].0.1@ =~= e.0.1@);
            let ghost before = v@;
            v.set(j, e);
            assert forall|i: int, i2: int| 0 <= i < i2 < v@.len() implies tag_key(#[trigger] v@[i]) != tag_key(#[trigger] v@[i2]) by {
                assert(tag_key(before[i]) != tag_key(before[i2]));
            }
            assert forall|kk: (u32, Seq<u8>)| m.insert(k, val).contains_key(kk) implies exists|i: int| 0 <= i < v@.len() && tag_key(#[trigger] v@[i]) == kk by {
                if kk == k {
                    assert(tag_key(v@[j as int]) == kk);
                } else {
                    let i = choose|i: int| 0 <= i < before.len() && tag_key(#[trigger] before[i]) == kk;
                    assert(tag_key(v@[i]) == kk);
                }
            }
            assert forall|i: int| 0 <= i < v@.len() implies m.insert(k, val).contains_key(tag_key(#[trigger] v@[i])) && m.insert(k, val)[tag_key(v@[i])] == v@[i].1@ by {
                if i != j {
                    assert(tag_key(before[i]) != tag_key(before[j as int]));
                }
            }
            return;
        }
        assert(tag_key(v@[j as int]) != k) by {
            if tag_key(v@[j as int]) == k {
                assert(v@[j as int].0.1[0] == v@[j as int].0.1@[0]);
                assert(e.0.1[0] == e.0.1@[0]);
                assert(v@[j as int].0.1[1] == v@[j as int].0.1@[1]);
                assert(e.0.1[1] == e.0.1@[1]);
                assert(v@[j as int].0.1[2] == v@[j as int].0.1@[2]);
                assert(e.0.1[2] == e.0.1@[2]);
                assert(v@[j as int].0.1[3] == v@[j as int].0.1@[3]);
                assert(e.0.1[3] == e.0.1@[3]);
            }
        }
        j = j + 1;
    }
    let ghost before = v@;
    v.push(e);
    assert forall|i: int, i2: int| 0 <= i < i2 < v@.len() implies tag_key(#[trigger] v@[i]) != tag_key(#[trigger] v@[i2]) by {
        if i2 < before.len() {
            assert(tag_key(before[i]) != tag_key(before[i2]));
        }
    }
    assert forall|kk: (u32, Seq<u8>)| m.insert(k, val).contains_key(kk) implies exists|i: int| 0 <= i < v@.len() && tag_key(#[trigger] v@[i]) == kk by {
        if kk == k {
            assert(tag_key(v@[before.len() as int]) == kk);
        } else {
            let i = choose|i: int| 0 <= i < before.len() && tag_key(#[trigger] before[i]) == kk;
            assert(tag_key(v@[i]) == kk);
        }
    }
    assert forall|i: int| 0 <= i < v@.len() implies m.insert(k, val).contains_key(tag_key(#[trigger] v@[i])) && m.insert(k, val)[tag_key(v@[i])] == v@[i].1@ by {
        if i < before.len() {
            assert(tag_key(before[i]) != k);
        }
    }
}

/// The friendly tag table of a JSON-lines text, one
/// `{"idx":<index>,"grp":"<group>","name":"<path>"}` object per line: its
/// entries, each key once, keyed by datum index and group code, a later line
/// with the same key replacing the name of an earlier one.
pub fn forge_halo_tag_table(jsonl: &str) -> (table: Vec<((u32, [u8; 4]), String)>)
    ensures
        entries_hold(table@, tag_table(jsonl@)),
{
    let s = chars_of(jsonl);
    let mut out: Vec<((u32, [u8; 4]), String)> = Vec::new();
    let ghost mut m: Map<(u32, Seq<u8>), Seq<char>> = Map::empty();
    let mut i: usize = 0;
    while i < s.len()
        invariant
            s@ == jsonl@,
            entries_hold(out@, m),
            tag_table(s@) == tag_table_from(s@, i as nat, m),
        decreases s.len() - i,
    {
        proof {
            lemma_newline_from(s@, i as nat);
        }
        let (line, e) = line_at_exec(&s, i);
        match tag_entry_exec(&line) {
            Some(entry) => {
                let ghost k = tag_key(entry);
                let ghost val = entry.1@;
                upsert(&mut out, entry, Ghost(m));
                proof {
                    m = m.insert(k, val);
                }
            },
            None => {},
        }
        if e >= s.len() {
            assert(tag_table_from(s@, (e + 1) as nat, m) == m);
            return out;
        }
        i = e + 1;
    }
    out
}

} // verus!
