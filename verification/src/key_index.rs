use crate::keyed::{distinct, first_index, first_seen, lemma_first_index, string_views, Key};
use std::collections::HashMap;
use vstd::prelude::*;
use vstd::string::StringSliceAdditionalSpecFns;

verus! {

broadcast use vstd::std_specs::hash::group_hash_axioms;

/// The hash of a list of bytes: each byte in turn is added to 31 times what
/// came before, in 64 bits.
pub open spec fn hash_bytes(bytes: Seq<u8>) -> u64
    decreases bytes.len(),
{
    if bytes.len() == 0 {
        0
    } else {
        hash_bytes(bytes.drop_last()).wrapping_mul(31).wrapping_add(bytes.last() as u64)
    }
}

/// The hash of a key: that of its bytes in UTF-8.
pub open spec fn hash_of(key: Key) -> u64 {
    hash_bytes(vstd::utf8::encode_utf8(key))
}

/// The hash of `text`.
pub fn hash_text(text: &str) -> (hash: u64)
    ensures
        hash == hash_of(text@),
{
    let bytes = text.as_bytes();
    let mut hash: u64 = 0;
    let mut i: usize = 0;
    while i < bytes.len()
        invariant
            i <= bytes.len(),
            bytes@ == text.spec_bytes(),
            hash == hash_bytes(bytes@.take(i as int)),
        decreases bytes.len() - i,
    {
        assert(bytes@.take(i + 1).drop_last() =~= bytes@.take(i as int));
        hash = hash.wrapping_mul(31).wrapping_add(bytes[i] as u64);
        i += 1;
    }
    assert(bytes@.take(bytes@.len() as int) =~= bytes@);
    hash
}

/// Whether the bucket of `hash` lists the position `i`.
pub open spec fn lists(buckets: Map<u64, Vec<usize>>, hash: u64, i: int) -> bool {
    buckets.contains_key(hash) && exists|c: int| 0 <= c < buckets[hash]@.len() && buckets[hash]@[c] == i
}

#[derive(Debug)]
struct Table {
    keys: Vec<String>,
    buckets: HashMap<u64, Vec<usize>>,
}

/// A list of keys, each once, in the order in which they came in, that
/// finds the position of a key without going through the list.
#[derive(Debug)]
pub struct KeyIndex {
    table: Table,
}

impl View for KeyIndex {
    type V = Seq<Key>;

    closed spec fn view(&self) -> Seq<Key> {
        string_views(self.table.keys@)
    }
}

spec fn table_is_sound(table: Table) -> bool {
    let keys = string_views(table.keys@);
    &&& distinct(keys)
    &&& forall|i: int| 0 <= i < keys.len() ==> lists(table.buckets@, hash_of(#[trigger] keys[i]), i)
    &&& forall|hash: u64, c: int|
        table.buckets@.contains_key(hash) && 0 <= c < table.buckets@[hash]@.len() ==> (
        #[trigger] table.buckets@[hash]@[c]) < keys.len()
}

impl KeyIndex {
    #[verifier::type_invariant]
    closed spec fn sound(self) -> bool {
        table_is_sound(self.table)
    }

    pub fn new() -> (index: Self)
        ensures
            index@ == Seq::<Key>::empty(),
    {
        let index = KeyIndex { table: Table { keys: Vec::new(), buckets: HashMap::new() } };
        assert(index@ =~= Seq::<Key>::empty());
        index
    }

    /// The keys of `keys`, each once, in the order in which they are first
    /// seen.
    pub fn from_keys(keys: &Vec<String>) -> (index: Self)
        ensures
            index@ == first_seen(string_views(keys@)),
    {
        let mut index = KeyIndex::new();
        let ghost all = string_views(keys@);
        let mut i: usize = 0;
        assert(index@ =~= first_seen(all.take(0)));
        while i < keys.len()
            invariant
                i <= keys.len(),
                all == string_views(keys@),
                index@ == first_seen(all.take(i as int)),
            decreases keys.len() - i,
        {
            proof {
                assert(all.take(i + 1).drop_last() =~= all.take(i as int));
                assert(all.take(i + 1).last() == keys@[i as int]@);
                lemma_first_index(index@, keys@[i as int]@);
                if index@.contains(keys@[i as int]@) {
                    let j = choose|j: int| 0 <= j < index@.len() && index@[j] == keys@[i as int]@;
                }
            }
            let _ = index.insert(keys[i].as_str());
            i += 1;
        }
        assert(all.take(all.len() as int) =~= all);
        index
    }

    /// How many keys there are.
    pub fn len(&self) -> (len: usize)
        ensures
            len == self@.len(),
            distinct(self@),
    {
        proof {
            use_type_invariant(self);
        }
        self.table.keys.len()
    }

    /// The key at position `i`.
    pub fn key(&self, i: usize) -> (key: &String)
        requires
            i < self@.len(),
        ensures
            key@ == self@[i as int],
    {
        &self.table.keys[i]
    }

    /// Where `key` stands.
    pub fn position(&self, key: &str) -> (found: Option<usize>)
        ensures
            match found {
                Some(i) => first_index(self@, key@) == Some(i as int) && i < self@.len(),
                None => first_index(self@, key@) is None,
            },
    {
        proof {
            use_type_invariant(self);
            lemma_first_index(self@, key@);
        }
        let wanted = key.to_owned();
        let hash = hash_text(key);
        match self.table.buckets.get(&hash) {
            None => None,
            Some(bucket) => {
                let mut c: usize = 0;
                while c < bucket.len()
                    invariant
                        c <= bucket.len(),
                        wanted@ == key@,
                        table_is_sound(self.table),
                        self.table.buckets@.contains_key(hash),
                        *bucket == self.table.buckets@[hash],
                        forall|d: int| 0 <= d < c ==> self@[bucket@[d] as int] != key@,
                    decreases bucket.len() - c,
                {
                    let i = bucket[c];
                    assert(i < self.table.keys@.len());
                    if self.table.keys[i] == wanted {
                        proof {
                            assert(self@[i as int] == key@);
                            lemma_first_index(self@, key@);
                        }
                        return Some(i);
                    }
                    c += 1;
                }
                proof {
                    if first_index(self@, key@) is Some {
                        let i = first_index(self@, key@).unwrap();
                        assert(lists(self.table.buckets@, hash_of(self@[i]), i));
                    }
                }
                None
            },
        }
    }

    /// Puts `key` behind the others, unless it is there, and says where it
    /// stands.
    pub fn insert(&mut self, key: &str) -> (position: usize)
        ensures
            first_index(old(self)@, key@) is Some ==> final(self)@ == old(self)@,
            first_index(old(self)@, key@) is None ==> final(self)@ == old(self)@.push(key@),
            first_index(final(self)@, key@) == Some(position as int),
            position < final(self)@.len(),
    {
        match self.position(key) {
            Some(i) => i,
            None => {
                proof {
                    use_type_invariant(&*self);
                    lemma_first_index(self@, key@);
                }
                let ghost before = self@;
                let mut table = Table { keys: Vec::new(), buckets: HashMap::new() };
                std::mem::swap(&mut self.table, &mut table);
                let ghost old_buckets = table.buckets@;
                let position = table.keys.len();
                let hash = hash_text(key);
                table.keys.push(key.to_owned());
                let mut bucket = match table.buckets.remove(&hash) {
                    Some(bucket) => bucket,
                    None => Vec::new(),
                };
                let ghost old_bucket = bucket@;
                proof {
                    if old_buckets.contains_key(hash) {
                        assert(old_bucket == old_buckets[hash]@);
                    } else {
                        assert(old_bucket.len() == 0);
                    }
                }
                bucket.push(position);
                let ghost new_bucket = bucket;
                table.buckets.insert(hash, bucket);
                proof {
                    let keys = string_views(table.keys@);
                    assert(keys =~= before.push(key@));
                    assert(table.buckets@ =~= old_buckets.insert(hash, new_bucket));
                    assert(new_bucket@ =~= old_bucket.push(position));
                    assert forall|i: int, j: int| 0 <= i < j < keys.len() implies keys[i] != keys[j] by {
                        assert(keys[i] == before[i]);
                        if j < before.len() {
                            assert(keys[j] == before[j]);
                        }
                    }
                    assert forall|i: int| 0 <= i < keys.len() implies lists(
                        table.buckets@,
                        hash_of(#[trigger] keys[i]),
                        i,
                    ) by {
                        if i < before.len() {
                            assert(keys[i] == before[i]);
                            let h = hash_of(before[i]);
                            assert(lists(old_buckets, h, i));
                            let c = choose|c: int| 0 <= c < old_buckets[h]@.len() && old_buckets[h]@[c] == i;
                            assert(table.buckets@.contains_key(h));
                            if h == hash {
                                assert(table.buckets@[h] == new_bucket);
                                assert(new_bucket@[c] == old_bucket[c]);
                            } else {
                                assert(table.buckets@[h] == old_buckets[h]);
                            }
                            assert(0 <= c < table.buckets@[h]@.len() && table.buckets@[h]@[c] == i);
                        } else {
                            assert(keys[i] == key@);
                            assert(table.buckets@[hash] == new_bucket);
                            let c = old_bucket.len() as int;
                            assert(0 <= c < table.buckets@[hash]@.len() && table.buckets@[hash]@[c] == i);
                        }
                    }
                    assert forall|h: u64, c: int|
                        table.buckets@.contains_key(h) && 0 <= c < table.buckets@[h]@.len() implies (
                        #[trigger] table.buckets@[h]@[c]) < keys.len() by {
                        if h == hash {
                            if c < old_bucket.len() {
                                assert(old_buckets[hash]@[c] < before.len());
                            }
                        } else {
                            assert(old_buckets[h]@[c] < before.len());
                        }
                    }
                    lemma_first_index(keys, key@);
                }
                std::mem::swap(&mut self.table, &mut table);
                position
            },
        }
    }

    /// The keys, in order.
    pub fn keys(&self) -> (keys: Vec<String>)
        ensures
            string_views(keys@) == self@,
            distinct(self@),
    {
        proof {
            use_type_invariant(self);
        }
        let mut keys: Vec<String> = Vec::new();
        let mut i: usize = 0;
        while i < self.table.keys.len()
            invariant
                i <= self.table.keys.len(),
                keys@.len() == i,
                forall|j: int| 0 <= j < i ==> keys@[j]@ == self.table.keys@[j]@,
            decreases self.table.keys.len() - i,
        {
            keys.push(self.table.keys[i].clone());
            i += 1;
        }
        assert(string_views(keys@) =~= self@);
        keys
    }
}

impl Clone for KeyIndex {
    fn clone(&self) -> (copy: Self)
        ensures
            copy@ == self@,
    {
        proof {
            use_type_invariant(self);
        }
        let mut copy = KeyIndex::new();
        let mut i: usize = 0;
        assert(copy@ =~= self@.take(0));
        while i < self.table.keys.len()
            invariant
                i <= self.table.keys.len(),
                distinct(self@),
                self@ == string_views(self.table.keys@),
                copy@ == self@.take(i as int),
            decreases self.table.keys.len() - i,
        {
            proof {
                let seen = self@.take(i as int);
                assert forall|j: int| 0 <= j < seen.len() implies seen[j] != self@[i as int] by {
                    assert(seen[j] == self@[j]);
                }
                lemma_first_index(seen, self@[i as int]);
                assert(self@.take(i + 1) =~= seen.push(self@[i as int]));
            }
            let _ = copy.insert(self.table.keys[i].as_str());
            i += 1;
        }
        assert(self@.take(self@.len() as int) =~= self@);
        copy
    }
}

} // verus!
