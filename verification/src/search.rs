use vstd::prelude::*;

verus! {

/// The first element of `s` that satisfies `pred`, if any.
pub open spec fn find_first<T>(s: Seq<T>, pred: spec_fn(T) -> bool) -> Option<T>
    decreases s.len(),
{
    if s.len() == 0 {
        None
    } else if pred(s[0]) {
        Some(s[0])
    } else {
        find_first(s.drop_first(), pred)
    }
}

/// Skipping an element that fails `pred` does not change the first match.
pub proof fn lemma_find_first_skip<T>(s: Seq<T>, pred: spec_fn(T) -> bool, i: int)
    requires
        0 <= i < s.len(),
        !pred(s[i]),
    ensures
        find_first(s.skip(i), pred) == find_first(s.skip(i + 1), pred),
{
    assert(s.skip(i).drop_first() =~= s.skip(i + 1));
}

/// An element that satisfies `pred` is the first match of the rest of the sequence.
pub proof fn lemma_find_first_hit<T>(s: Seq<T>, pred: spec_fn(T) -> bool, i: int)
    requires
        0 <= i < s.len(),
        pred(s[i]),
    ensures
        find_first(s.skip(i), pred) == Some(s[i]),
{
}

/// Nothing matches in an empty rest.
pub proof fn lemma_find_first_end<T>(s: Seq<T>, pred: spec_fn(T) -> bool)
    ensures
        find_first(s.skip(s.len() as int), pred) is None,
{
}

/// `find_first` returns a matching element of the sequence, and `None` only
/// when no element matches.
pub proof fn lemma_find_first_spec<T>(s: Seq<T>, pred: spec_fn(T) -> bool)
    ensures
        find_first(s, pred) is None <==> forall|i: int| 0 <= i < s.len() ==> !pred(#[trigger] s[i]),
        find_first(s, pred) matches Some(x) ==> exists|i: int| 0 <= i < s.len() && s[i] == x && pred(x)
            && forall|j: int| 0 <= j < i ==> !pred(#[trigger] s[j]),
    decreases s.len(),
{
    if s.len() > 0 {
        lemma_find_first_spec(s.drop_first(), pred);
        if !pred(s[0]) {
            if find_first(s, pred) is None {
                assert forall|i: int| 0 <= i < s.len() implies !pred(#[trigger] s[i]) by {
                    if i > 0 {
                        assert(s[i] == s.drop_first()[i - 1]);
                    }
                }
            } else {
                let x = find_first(s, pred)->0;
                let k = choose|k: int| 0 <= k < s.drop_first().len() && s.drop_first()[k] == x && pred(x)
                    && forall|j: int| 0 <= j < k ==> !pred(#[trigger] s.drop_first()[j]);
                assert(s[k + 1] == x);
                assert forall|j: int| 0 <= j < k + 1 implies !pred(#[trigger] s[j]) by {
                    if j > 0 {
                        assert(s[j] == s.drop_first()[j - 1]);
                    }
                }
            }
            if forall|i: int| 0 <= i < s.len() ==> !pred(#[trigger] s[i]) {
                assert forall|i: int| 0 <= i < s.drop_first().len() implies !pred(#[trigger] s.drop_first()[i]) by {
                    assert(s.drop_first()[i] == s[i + 1]);
                }
            }
        } else {
            assert forall|j: int| 0 <= j < 0 implies !pred(#[trigger] s[j]) by {}
        }
    }
}


/// A palette record that names the map it belongs to.
pub trait MapRecord: Sized {
    /// The map name, as characters.
    spec fn map_of(&self) -> Seq<char>;

    /// The map name.
    fn map_name(&self) -> (m: &String)
        ensures
            m@ == self.map_of();

    /// A field-by-field copy.
    fn duplicate(&self) -> (r: Self)
        ensures
            r == *self;
}

/// The distinct map names of `records`, in order of first appearance.
pub open spec fn distinct_maps<R: MapRecord>(records: Seq<R>) -> Seq<Seq<char>>
    decreases records.len(),
{
    if records.len() == 0 {
        Seq::empty()
    } else {
        let prev = distinct_maps(records.drop_last());
        if prev.contains(records.last().map_of()) {
            prev
        } else {
            prev.push(records.last().map_of())
        }
    }
}

/// Every record's map is among the distinct maps.
pub proof fn lemma_distinct_maps_cover<R: MapRecord>(records: Seq<R>, i: int)
    requires
        0 <= i < records.len(),
    ensures
        distinct_maps(records).contains(records[i].map_of()),
    decreases records.len(),
{
    let prev = distinct_maps(records.drop_last());
    if i < records.len() - 1 {
        lemma_distinct_maps_cover(records.drop_last(), i);
        assert(records.drop_last()[i] == records[i]);
        if !prev.contains(records.last().map_of()) {
            let k = choose|k: int| 0 <= k < prev.len() && prev[k] == records[i].map_of();
            assert(prev.push(records.last().map_of())[k] == records[i].map_of());
        }
    } else {
        if !prev.contains(records.last().map_of()) {
            assert(prev.push(records.last().map_of())[prev.len() as int] == records[i].map_of());
        }
    }
}

/// The records of one map, in order.
pub open spec fn records_of_map<R: MapRecord>(records: Seq<R>, map: Seq<char>) -> Seq<R> {
    records.filter(|r: R| r.map_of() == map)
}

/// Each record of one map's list is a record of that map, taken from the
/// records.
pub proof fn lemma_records_of_map_member<R: MapRecord>(records: Seq<R>, map: Seq<char>, i: int)
    requires
        0 <= i < records_of_map(records, map).len(),
    ensures
        records_of_map(records, map)[i].map_of() == map,
        records.contains(records_of_map(records, map)[i]),
    decreases records.len(),
{
    reveal(Seq::filter);
    if records.len() > 0 {
        let prev = records_of_map(records.drop_last(), map);
        let x = records_of_map(records, map)[i];
        if records.last().map_of() == map {
            assert(records_of_map(records, map) == prev.push(records.last()));
            if i == prev.len() {
                assert(records[records.len() - 1] == x);
            } else {
                lemma_records_of_map_member(records.drop_last(), map, i);
                let k = choose|k: int| 0 <= k < records.drop_last().len() && records.drop_last()[k] == x;
                assert(records[k] == x);
            }
        } else {
            assert(records_of_map(records, map) == prev);
            lemma_records_of_map_member(records.drop_last(), map, i);
            let k = choose|k: int| 0 <= k < records.drop_last().len() && records.drop_last()[k] == x;
            assert(records[k] == x);
        }
    }
}

/// A map that has records is among the distinct maps.
pub proof fn lemma_map_with_records_is_distinct<R: MapRecord>(records: Seq<R>, map: Seq<char>)
    requires
        records_of_map(records, map).len() > 0,
    ensures
        distinct_maps(records).contains(map),
    decreases records.len(),
{
    reveal(Seq::filter);
    if records.len() > 0 {
        if records.last().map_of() == map {
            lemma_distinct_maps_cover(records, records.len() - 1);
        } else {
            assert(records_of_map(records, map) == records_of_map(records.drop_last(), map));
            lemma_map_with_records_is_distinct(records.drop_last(), map);
            let prev = distinct_maps(records.drop_last());
            let k = choose|k: int| 0 <= k < prev.len() && prev[k] == map;
            if !prev.contains(records.last().map_of()) {
                assert(prev.push(records.last().map_of())[k] == map);
            }
        }
    }
}

/// Whether `groups` lists each map of `records` once, in order of first
/// appearance, with that map's records in order.
pub open spec fn is_grouping<R: MapRecord>(records: Seq<R>, groups: Seq<(String, Vec<R>)>) -> bool {
    &&& groups.len() == distinct_maps(records).len()
    &&& forall|i: int| 0 <= i < groups.len() ==> (#[trigger] groups[i]).0@ == distinct_maps(records)[i]
        && groups[i].1@ == records_of_map(records, distinct_maps(records)[i])
}

/// The records of `records` whose map is `map`, in order.
pub fn filter_by_map<R: MapRecord>(records: &Vec<R>, map: &String) -> (out: Vec<R>)
    ensures
        out@ == records_of_map(records@, map@),
{
    let mut out: Vec<R> = Vec::new();
    let mut i: usize = 0;
    while i < records.len()
        invariant
            i <= records@.len(),
            out@ == records@.take(i as int).filter(|r: R| r.map_of() == map@),
        decreases records.len() - i,
    {
        proof {
            assert(records@.take(i + 1).drop_last() =~= records@.take(i as int));
            reveal(Seq::filter);
        }
        if *records[i].map_name() == *map {
            out.push(records[i].duplicate());
        }
        i = i + 1;
    }
    assert(records@.take(records@.len() as int) =~= records@);
    out
}

/// Groups records by map: one `(map, records)` pair per distinct map, in
/// order of first appearance, each with that map's records in order.
pub fn group_by_map<R: MapRecord>(records: &Vec<R>) -> (groups: Vec<(String, Vec<R>)>)
    ensures
        is_grouping(records@, groups@),
{
    let mut keys: Vec<String> = Vec::new();
    let mut i: usize = 0;
    while i < records.len()
        invariant
            i <= records@.len(),
            keys@.len() == distinct_maps(records@.take(i as int)).len(),
            forall|k: int| 0 <= k < keys@.len() ==> (#[trigger] keys@[k])@ == distinct_maps(records@.take(i as int))[k],
        decreases records.len() - i,
    {
        let ghost prev = distinct_maps(records@.take(i as int));
        assert(records@.take(i + 1).drop_last() =~= records@.take(i as int));
        let name = records[i].map_name();
        let mut found = false;
        let mut k: usize = 0;
        while k < keys.len()
            invariant
                k <= keys@.len(),
                keys@.len() == prev.len(),
                forall|j: int| 0 <= j < keys@.len() ==> (#[trigger] keys@[j])@ == prev[j],
                found <==> exists|j: int| 0 <= j < k && prev[j] == name@,
            decreases keys.len() - k,
        {
            if keys[k] == *name {
                found = true;
            }
            k = k + 1;
        }
        assert(found <==> prev.contains(name@));
        if !found {
            keys.push(name.clone());
        }
        i = i + 1;
    }
    assert(records@.take(records@.len() as int) =~= records@);
    let mut groups: Vec<(String, Vec<R>)> = Vec::new();
    let mut g: usize = 0;
    while g < keys.len()
        invariant
            g <= keys@.len(),
            keys@.len() == distinct_maps(records@).len(),
            forall|k: int| 0 <= k < keys@.len() ==> (#[trigger] keys@[k])@ == distinct_maps(records@)[k],
            groups@.len() == g,
            forall|j: int| 0 <= j < g ==> (#[trigger] groups@[j]).0@ == distinct_maps(records@)[j]
                && groups@[j].1@ == records_of_map(records@, distinct_maps(records@)[j]),
        decreases keys.len() - g,
    {
        let members = filter_by_map(records, &keys[g]);
        groups.push((keys[g].clone(), members));
        g = g + 1;
    }
    groups
}
} // verus!
