use vstd::prelude::*;

verus! {

/// The keys of a list of string-keyed entries, as character sequences.
pub open spec fn keys_of<V>(s: Seq<(String, V)>) -> Seq<Seq<char>> {
    s.map_values(|e: (String, V)| e.0@)
}

/// The map that a list of string-keyed entries denotes: a later entry wins
/// over an earlier one with the same key.
pub open spec fn table_of<V>(s: Seq<(String, V)>) -> Map<Seq<char>, V>
    decreases s.len(),
{
    if s.len() == 0 {
        Map::empty()
    } else {
        table_of(s.drop_last()).insert(s.last().0@, s.last().1)
    }
}

/// Dropping the last entry drops the last key, and keeps the keys distinct.
pub proof fn lemma_keys_drop_last<V>(s: Seq<(String, V)>)
    requires
        s.len() > 0,
    ensures
        keys_of(s.drop_last()) =~= keys_of(s).drop_last(),
        keys_of(s).no_duplicates() ==> keys_of(s.drop_last()).no_duplicates(),
{
    assert(keys_of(s.drop_last()) =~= keys_of(s).drop_last());
    if keys_of(s).no_duplicates() {
        assert forall|a: int, b: int|
            0 <= a < b < keys_of(s.drop_last()).len() implies keys_of(s.drop_last())[a]
            != keys_of(s.drop_last())[b] by {
            assert(keys_of(s)[a] != keys_of(s)[b]);
        }
    }
}

/// Appending an entry inserts its key into the denoted map.
pub proof fn lemma_table_push<V>(s: Seq<(String, V)>, e: (String, V))
    ensures
        table_of(s.push(e)) == table_of(s).insert(e.0@, e.1),
        keys_of(s.push(e)) =~= keys_of(s).push(e.0@),
{
    assert(s.push(e).drop_last() =~= s);
}

/// Replacing the value of the entry at `i`, among distinct keys, updates that key.
pub proof fn lemma_table_set<V>(s: Seq<(String, V)>, i: int, e: (String, V))
    requires
        0 <= i < s.len(),
        e.0@ == s[i].0@,
        keys_of(s).no_duplicates(),
    ensures
        table_of(s.update(i, e)) == table_of(s).insert(e.0@, e.1),
        keys_of(s.update(i, e)) =~= keys_of(s),
    decreases s.len(),
{
    let t = s.update(i, e);
    let n = s.len();
    lemma_keys_drop_last(s);
    if i == n - 1 {
        assert(t.drop_last() =~= s.drop_last());
        assert(table_of(t) =~= table_of(s).insert(e.0@, e.1));
    } else {
        assert(t.drop_last() =~= s.drop_last().update(i, e));
        lemma_table_set(s.drop_last(), i, e);
        assert(keys_of(s)[i] != keys_of(s)[n - 1]);
        assert(table_of(t) =~= table_of(s).insert(e.0@, e.1));
    }
}

/// Where a key occurs among `v`'s entries.
pub fn find_key<V>(v: &Vec<(String, V)>, k: &String) -> (r: Option<usize>)
    ensures
        r matches Some(i) ==> i < v@.len() && v@[i as int].0@ == k@,
        r is None ==> !keys_of(v@).contains(k@),
{
    let mut i: usize = 0;
    while i < v.len()
        invariant
            i <= v@.len(),
            forall|j: int| 0 <= j < i ==> v@[j].0@ != k@,
        decreases v@.len() - i,
    {
        if v[i].0.eq(k) {
            return Some(i);
        }
        i = i + 1;
    }
    proof {
        if keys_of(v@).contains(k@) {
            let j = choose|j: int| 0 <= j < keys_of(v@).len() && keys_of(v@)[j] == k@;
            assert(v@[j].0@ == k@);
        }
    }
    None
}

/// Among distinct keys, the denoted map holds each entry's value under its key.
pub proof fn lemma_table_index<V>(s: Seq<(String, V)>, i: int)
    requires
        0 <= i < s.len(),
        keys_of(s).no_duplicates(),
    ensures
        table_of(s).contains_key(s[i].0@),
        table_of(s)[s[i].0@] == s[i].1,
    decreases s.len(),
{
    lemma_keys_drop_last(s);
    if i < s.len() - 1 {
        lemma_table_index(s.drop_last(), i);
        assert(keys_of(s)[i] != keys_of(s)[s.len() - 1]);
    }
}

/// A key absent from the entries is absent from the denoted map.
pub proof fn lemma_table_absent<V>(s: Seq<(String, V)>, k: Seq<char>)
    requires
        !keys_of(s).contains(k),
    ensures
        !table_of(s).contains_key(k),
    decreases s.len(),
{
    if s.len() > 0 {
        lemma_keys_drop_last(s);
        assert(keys_of(s)[s.len() - 1] == s.last().0@);
        if keys_of(s.drop_last()).contains(k) {
            let j = choose|j: int| 0 <= j < keys_of(s.drop_last()).len() && keys_of(s.drop_last())[j] == k;
            assert(keys_of(s)[j] == k);
        }
        lemma_table_absent(s.drop_last(), k);
    }
}

} // verus!
