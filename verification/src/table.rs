use vstd::prelude::*;

verus! {

/// A sequence of entries, each a key with its value, read as a lookup table.
pub type Entries<V> = Seq<(Seq<char>, V)>;

/// Whether the entry at `j` has the key `key`.
pub open spec fn keyed_at<V>(s: Entries<V>, key: Seq<char>, j: int) -> bool {
    0 <= j < s.len() && s[j].0 == key
}

/// Whether no key stands twice in `s`.
pub open spec fn keys_distinct<V>(s: Entries<V>) -> bool {
    forall|i: int, j: int| 0 <= i < j < s.len() ==> s[i].0 != s[j].0
}

/// The map that the entries of `s` make up. Where a key stands once, its
/// value is that of its entry.
pub open spec fn table<V>(s: Entries<V>) -> Map<Seq<char>, V> {
    Map::new(
        |key: Seq<char>| exists|j: int| keyed_at(s, key, j),
        |key: Seq<char>| s[choose|j: int| keyed_at(s, key, j)].1,
    )
}

/// In a sequence without repeated keys a key has one place.
pub proof fn lemma_key_place<V>(s: Entries<V>, key: Seq<char>, j: int, k: int)
    requires
        keys_distinct(s),
        keyed_at(s, key, j),
        keyed_at(s, key, k),
    ensures
        j == k,
{
    if j < k {
        assert(s[j].0 != s[k].0);
    } else if k < j {
        assert(s[k].0 != s[j].0);
    }
}

/// The table holds each entry's value under the entry's key.
pub proof fn lemma_table_entry<V>(s: Entries<V>, j: int)
    requires
        keys_distinct(s),
        0 <= j < s.len(),
    ensures
        table(s).contains_key(s[j].0),
        table(s)[s[j].0] == s[j].1,
{
    assert(keyed_at(s, s[j].0, j));
    let k = choose|k: int| keyed_at(s, s[j].0, k);
    lemma_key_place(s, s[j].0, j, k);
}

/// Appending an entry with a new key, or replacing the entry of a key
/// that is present, inserts the entry into the table.
pub proof fn lemma_table_put<V>(s: Entries<V>, t: Entries<V>, entry: (Seq<char>, V))
    requires
        keys_distinct(s),
        t == s.push(entry) && (forall|j: int| !keyed_at(s, entry.0, j)) || exists|j: int|
            keyed_at(s, entry.0, j) && t == s.update(j, entry),
    ensures
        keys_distinct(t),
        table(t) == table(s).insert(entry.0, entry.1),
{
    let a = table(t);
    let b = table(s).insert(entry.0, entry.1);
    let at = if t == s.push(entry) && (forall|j: int| !keyed_at(s, entry.0, j)) {
        s.len() as int
    } else {
        choose|j: int| keyed_at(s, entry.0, j) && t == s.update(j, entry)
    };
    assert(t[at] == entry);
    assert forall|j: int| 0 <= j < t.len() && j != at implies t[j] == s[j] && t[j].0
        != entry.0 by {
        if keyed_at(s, entry.0, j) {
            lemma_key_place(s, entry.0, j, at);
        }
    }
    assert forall|i: int, j: int| 0 <= i < j < t.len() implies t[i].0 != t[j].0 by {
        if i != at && j != at {
            assert(s[i].0 != s[j].0);
        }
    }
    assert forall|key: Seq<char>| a.contains_key(key) == b.contains_key(key) by {
        if a.contains_key(key) {
            let j = choose|j: int| keyed_at(t, key, j);
            if j != at {
                assert(keyed_at(s, key, j));
            }
        }
        if b.contains_key(key) {
            if key == entry.0 {
                assert(keyed_at(t, key, at));
            } else {
                let j = choose|j: int| keyed_at(s, key, j);
                assert(keyed_at(t, key, j));
            }
        }
    }
    assert forall|key: Seq<char>| a.contains_key(key) implies a[key] == b[key] by {
        let j = choose|j: int| keyed_at(t, key, j);
        if key == entry.0 {
            assert(keyed_at(t, key, at));
            lemma_key_place(t, key, j, at);
        } else {
            assert(keyed_at(s, key, j));
            let k = choose|k: int| keyed_at(s, key, k);
            lemma_key_place(s, key, j, k);
        }
    }
    assert(a =~= b);
}

/// The keys of the entries, taken in order, name each key of the table
/// once.
pub proof fn lemma_table_keys<V>(s: Entries<V>, keys: Seq<Seq<char>>)
    requires
        keys_distinct(s),
        keys.len() == s.len(),
        forall|j: int| 0 <= j < s.len() ==> keys[j] == s[j].0,
    ensures
        keys.no_duplicates(),
        keys.to_set() == table(s).dom(),
{
    assert forall|i: int, j: int|
        0 <= i < keys.len() && 0 <= j < keys.len() && i != j implies keys[i] != keys[j] by {
        if i < j {
            assert(s[i].0 != s[j].0);
        } else {
            assert(s[j].0 != s[i].0);
        }
    }
    assert forall|key: Seq<char>| keys.to_set().contains(key) == table(s).dom().contains(key) by {
        if keys.contains(key) {
            let j = choose|j: int| 0 <= j < keys.len() && keys[j] == key;
            assert(keyed_at(s, key, j));
        }
        if table(s).contains_key(key) {
            let j = choose|j: int| keyed_at(s, key, j);
            assert(keys[j] == key);
        }
    }
    assert(keys.to_set() =~= table(s).dom());
}

} // verus!
