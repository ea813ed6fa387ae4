use vstd::prelude::*;
use crate::keyed::{assoc, keys_unique, key_absent, lemma_assoc_lacks, lemma_assoc_has, lemma_assoc_push, lemma_assoc_remove, lemma_assoc_len};

verus! {

/// A map from string keys to values, kept as a list of entries with unique keys.
pub struct TagMap<V> {
    entries: Vec<(String, V)>,
}

/// The entries with their keys as character sequences.
pub open spec fn text_keyed<V>(s: Seq<(String, V)>) -> Seq<(Seq<char>, V)> {
    s.map_values(|e: (String, V)| (e.0@, e.1))
}

impl<V> View for TagMap<V> {
    type V = Map<Seq<char>, V>;

    closed spec fn view(&self) -> Map<Seq<char>, V> {
        assoc(text_keyed(self.entries@))
    }
}

impl<V> TagMap<V> {
    /// The keys of the entries are unique.
    pub closed spec fn wf(&self) -> bool {
        keys_unique(text_keyed(self.entries@))
    }

    pub fn new() -> (r: TagMap<V>)
        ensures
            r.wf(),
            r@ == Map::<Seq<char>, V>::empty(),
    {
        let r = TagMap { entries: Vec::new() };
        assert(text_keyed(r.entries@) =~= Seq::<(Seq<char>, V)>::empty());
        r
    }

    /// The number of keys.
    pub fn len(&self) -> (r: usize)
        requires
            self.wf(),
        ensures
            r == self@.len(),
    {
        proof {
            self.lemma_len();
        }
        self.entries.len()
    }

    proof fn lemma_len(&self)
        requires
            self.wf(),
        ensures
            self@.len() == self.entries@.len(),
    {
        lemma_assoc_len(text_keyed(self.entries@));
    }

    fn position(&self, key: &String) -> (r: Option<usize>)
        requires
            self.wf(),
        ensures
            match r {
                Some(i) => i < self.entries@.len() && self.entries@[i as int].0@ == key@,
                None => key_absent(text_keyed(self.entries@), key@),
            },
    {
        let mut i: usize = 0;
        while i < self.entries.len()
            invariant
                i <= self.entries@.len(),
                forall|j: int| 0 <= j < i ==> self.entries@[j].0@ != key@,
            decreases self.entries.len() - i,
        {
            if self.entries[i].0 == *key {
                return Some(i);
            }
            i = i + 1;
        }
        None
    }

    /// The value under `key`, if there is one.
    pub fn get(&self, key: &str) -> (r: Option<&V>)
        requires
            self.wf(),
        ensures
            match r {
                Some(v) => self@.contains_key(key@) && self@[key@] == *v,
                None => !self@.contains_key(key@),
            },
    {
        let key = key.to_owned();
        match self.position(&key) {
            Some(i) => {
                proof {
                    lemma_assoc_has(text_keyed(self.entries@), i as int);
                }
                Some(&self.entries[i].1)
            },
            None => {
                proof {
                    lemma_assoc_lacks(text_keyed(self.entries@), key@);
                }
                None
            },
        }
    }

    /// Puts `value` under `key`, in place of what was there.
    pub fn set(&mut self, key: String, value: V)
        requires
            old(self).wf(),
        ensures
            final(self).wf(),
            final(self)@ == old(self)@.insert(key@, value),
    {
        if let Some(i) = self.position(&key) {
            let ghost before = self.entries@;
            self.entries.remove(i);
            proof {
                lemma_assoc_remove(text_keyed(before), i as int);
                assert(text_keyed(self.entries@) =~= text_keyed(before).remove(i as int));
            }
        }
        let ghost before = self.entries@;
        proof {
            assert(key_absent(text_keyed(before), key@));
        }
        let k = key;
        let ghost kv = k@;
        self.entries.push((k, value));
        proof {
            lemma_assoc_push(text_keyed(before), kv, value);
            assert(text_keyed(self.entries@) =~= text_keyed(before).push((kv, value)));
        }
    }
}

/// A value of a tag bag.
pub enum DimenValue {
    Text(String),
    Number(i64),
}

/// An extensible bag of tags, from tag name to value.
pub type Dimensions = TagMap<DimenValue>;

/// A tag was read as a type that it does not hold.
pub struct WrongTagType {
    pub key: String,
    pub expected: String,
}

/// The text under `key`, if the key holds one.
pub open spec fn text_under(m: Map<Seq<char>, DimenValue>, key: Seq<char>) -> Option<Seq<char>> {
    if m.contains_key(key) {
        match m[key] {
            DimenValue::Text(t) => Some(t@),
            _ => None,
        }
    } else {
        None
    }
}

/// The key is absent or holds a text.
pub open spec fn text_typed(m: Map<Seq<char>, DimenValue>, key: Seq<char>) -> bool {
    m.contains_key(key) ==> m[key] is Text
}

impl TagMap<DimenValue> {
    /// The text under `key`; an error that names the key where it holds another type.
    pub fn get_text(&self, key: &str) -> (r: Result<Option<&String>, WrongTagType>)
        requires
            self.wf(),
        ensures
            match r {
                Ok(Some(t)) => text_typed(self@, key@) && text_under(self@, key@) == Some(t@),
                Ok(None) => !self@.contains_key(key@),
                Err(e) => !text_typed(self@, key@) && e.key@ == key@ && e.expected@ == "text"@,
            },
    {
        match self.get(key) {
            None => Ok(None),
            Some(DimenValue::Text(t)) => Ok(Some(t)),
            Some(_) => Err(WrongTagType { key: key.to_owned(), expected: "text".to_owned() }),
        }
    }
}

} // verus!
