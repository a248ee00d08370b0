use vstd::prelude::*;

verus! {

/// A key as contracts see it: the characters of a string.
pub type Key = Seq<char>;

/// The views of a list of strings, in order.
pub open spec fn string_views(strings: Seq<String>) -> Seq<Key> {
    strings.map_values(|s: String| s@)
}

/// The first position at which `key` stands in `keys`, if it stands there at all.
pub open spec fn first_index(keys: Seq<Key>, key: Key) -> Option<int>
    decreases keys.len(),
{
    if keys.len() == 0 {
        None
    } else if first_index(keys.drop_last(), key) is Some {
        first_index(keys.drop_last(), key)
    } else if keys.last() == key {
        Some(keys.len() - 1)
    } else {
        None
    }
}

/// No key stands twice in `keys`.
pub open spec fn distinct(keys: Seq<Key>) -> bool {
    forall|i: int, j: int| 0 <= i < j < keys.len() ==> keys[i] != keys[j]
}

/// `first_index` finds the least position of the key, and finds none only
/// where the key stands nowhere.
pub proof fn lemma_first_index(keys: Seq<Key>, key: Key)
    ensures
        match first_index(keys, key) {
            Some(i) => 0 <= i < keys.len() && keys[i] == key && forall|j: int|
                0 <= j < i ==> keys[j] != key,
            None => forall|j: int| 0 <= j < keys.len() ==> keys[j] != key,
        },
    decreases keys.len(),
{
    if keys.len() > 0 {
        let front = keys.drop_last();
        lemma_first_index(front, key);
        assert forall|j: int| 0 <= j < front.len() implies front[j] == keys[j] by {}
        match first_index(front, key) {
            Some(i) => {
                assert(keys[i] == front[i]);
                assert forall|j: int| 0 <= j < i implies keys[j] != key by {
                    assert(front[j] != key);
                }
            },
            None => {
                assert forall|j: int| 0 <= j < front.len() implies keys[j] != key by {
                    assert(front[j] != key);
                }
            },
        }
    }
}

/// A position that holds the key, with no earlier one that does, is the
/// first index of the key.
pub proof fn lemma_first_index_is(keys: Seq<Key>, key: Key, i: int)
    requires
        0 <= i < keys.len(),
        keys[i] == key,
        forall|j: int| 0 <= j < i ==> keys[j] != key,
    ensures
        first_index(keys, key) == Some(i),
{
    lemma_first_index(keys, key);
}

/// A key that stands nowhere has no first index.
pub proof fn lemma_first_index_none(keys: Seq<Key>, key: Key)
    requires
        forall|j: int| 0 <= j < keys.len() ==> keys[j] != key,
    ensures
        first_index(keys, key) is None,
{
    lemma_first_index(keys, key);
}

/// The keys of `keys`, each once, in the order in which they are first
/// seen.
pub open spec fn first_seen(keys: Seq<Key>) -> Seq<Key>
    decreases keys.len(),
{
    if keys.len() == 0 {
        Seq::empty()
    } else if first_seen(keys.drop_last()).contains(keys.last()) {
        first_seen(keys.drop_last())
    } else {
        first_seen(keys.drop_last()).push(keys.last())
    }
}

/// Every key of `keys` is first seen once.
pub proof fn lemma_first_seen(keys: Seq<Key>)
    ensures
        distinct(first_seen(keys)),
        forall|key: Key| first_seen(keys).contains(key) <==> keys.contains(key),
    decreases keys.len(),
{
    if keys.len() > 0 {
        let front = keys.drop_last();
        let last = keys.last();
        lemma_first_seen(front);
        let seen = first_seen(front);
        assert forall|key: Key| keys.contains(key) <==> front.contains(key) || key == last by {
            if front.contains(key) {
                let i = choose|i: int| 0 <= i < front.len() && front[i] == key;
                assert(keys[i] == key);
            }
            if keys.contains(key) {
                let i = choose|i: int| 0 <= i < keys.len() && keys[i] == key;
                if i < front.len() {
                    assert(front[i] == key);
                }
            }
            assert(keys[keys.len() - 1] == last);
        }
        if seen.contains(last) {
        } else {
            let grown = seen.push(last);
            assert forall|i: int, j: int| 0 <= i < j < grown.len() implies grown[i] != grown[j] by {
                assert(grown[i] == seen[i]);
                if j < seen.len() {
                    assert(grown[j] == seen[j]);
                }
            }
            assert forall|key: Key| grown.contains(key) <==> seen.contains(key) || key == last by {
                if seen.contains(key) {
                    let i = choose|i: int| 0 <= i < seen.len() && seen[i] == key;
                    assert(grown[i] == key);
                }
                if grown.contains(key) {
                    let i = choose|i: int| 0 <= i < grown.len() && grown[i] == key;
                    if i < seen.len() {
                        assert(seen[i] == key);
                    }
                }
                assert(grown[grown.len() - 1] == last);
            }
        }
    }
}

/// A list has as many first-seen keys as keys only where no key stands
/// twice in it, and never more.
pub proof fn lemma_first_seen_len(keys: Seq<Key>)
    ensures
        first_seen(keys).len() <= keys.len(),
        first_seen(keys).len() == keys.len() <==> distinct(keys),
    decreases keys.len(),
{
    if keys.len() > 0 {
        let front = keys.drop_last();
        let last = keys.last();
        lemma_first_seen_len(front);
        lemma_first_seen(front);
        if distinct(keys) {
            assert forall|i: int, j: int| 0 <= i < j < front.len() implies front[i] != front[j] by {
                assert(keys[i] != keys[j]);
            }
            if front.contains(last) {
                let i = choose|i: int| 0 <= i < front.len() && front[i] == last;
                assert(keys[i] == keys[keys.len() - 1]);
            }
        }
        if first_seen(front).contains(last) {
            assert(front.contains(last));
        } else {
            assert(!front.contains(last));
            if distinct(front) {
                assert forall|i: int, j: int| 0 <= i < j < keys.len() implies keys[i] != keys[j] by {
                    if j < front.len() {
                        assert(front[i] != front[j]);
                    } else {
                        assert(front[i] == keys[i]);
                    }
                }
            }
        }
    }
}

/// The values among `found`, in order.
pub open spec fn present<T>(found: Seq<Option<T>>) -> Seq<T>
    decreases found.len(),
{
    if found.len() == 0 {
        Seq::empty()
    } else {
        match found.last() {
            Some(value) => present(found.drop_last()).push(value),
            None => present(found.drop_last()),
        }
    }
}

} // verus!
