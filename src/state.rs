use vstd::prelude::*;
use crate::keyed::{assoc, keys_unique, key_absent, lemma_assoc_lacks, lemma_assoc_has, lemma_assoc_push, lemma_assoc_remove};
use crate::tags::TagMap;

verus! {

/// A value that a constraint module keeps in a state bag.
pub enum StateValue {
    /// Group tags and the id of the actor that each is bound to.
    ActorGroups(TagMap<usize>),
    Number(i64),
}

/// What a state value holds.
pub enum StateView {
    ActorGroups(Map<Seq<char>, usize>),
    Number(i64),
}

impl View for StateValue {
    type V = StateView;

    open spec fn view(&self) -> StateView {
        match self {
            StateValue::ActorGroups(m) => StateView::ActorGroups(m@),
            StateValue::Number(n) => StateView::Number(*n),
        }
    }
}

impl StateValue {
    pub open spec fn wf(&self) -> bool {
        match self {
            StateValue::ActorGroups(m) => m.wf(),
            StateValue::Number(_) => true,
        }
    }
}

/// A state key was read as a type of value that it does not hold.
pub struct WrongStateType {
    pub key: i32,
    pub expected: String,
}

/// Values derived by constraint modules, under the small integer keys that
/// the modules own.
pub struct StateBag {
    entries: Vec<(i32, StateValue)>,
}

/// The entries with their values as views.
pub open spec fn viewed(s: Seq<(i32, StateValue)>) -> Seq<(i32, StateView)> {
    s.map_values(|e: (i32, StateValue)| (e.0, e.1@))
}

impl View for StateBag {
    type V = Map<i32, StateView>;

    closed spec fn view(&self) -> Map<i32, StateView> {
        assoc(viewed(self.entries@))
    }
}

impl StateBag {
    /// Keys are unique and every value is well formed.
    pub closed spec fn wf(&self) -> bool {
        &&& keys_unique(viewed(self.entries@))
        &&& forall|i: int| 0 <= i < self.entries@.len() ==> (#[trigger] self.entries@[i]).1.wf()
    }

    pub fn new() -> (r: StateBag)
        ensures
            r.wf(),
            r@ == Map::<i32, StateView>::empty(),
    {
        let r = StateBag { entries: Vec::new() };
        assert(viewed(r.entries@) =~= Seq::<(i32, StateView)>::empty());
        r
    }

    fn position(&self, key: i32) -> (r: Option<usize>)
        ensures
            match r {
                Some(i) => i < self.entries@.len() && self.entries@[i as int].0 == key,
                None => key_absent(viewed(self.entries@), key),
            },
    {
        let mut i: usize = 0;
        while i < self.entries.len()
            invariant
                i <= self.entries@.len(),
                forall|j: int| 0 <= j < i ==> self.entries@[j].0 != key,
            decreases self.entries.len() - i,
        {
            if self.entries[i].0 == key {
                return Some(i);
            }
            i = i + 1;
        }
        None
    }

    /// The value under `key`, if there is one.
    pub fn get(&self, key: i32) -> (r: Option<&StateValue>)
        requires
            self.wf(),
        ensures
            match r {
                Some(v) => self@.contains_key(key) && self@[key] == v@ && v.wf(),
                None => !self@.contains_key(key),
            },
    {
        match self.position(key) {
            Some(i) => {
                proof {
                    lemma_assoc_has(viewed(self.entries@), i as int);
                }
                Some(&self.entries[i].1)
            },
            None => {
                proof {
                    lemma_assoc_lacks(viewed(self.entries@), key);
                }
                None
            },
        }
    }

    /// The group bindings under `key`; an error that names the key where it
    /// holds another type of value.
    pub fn get_actor_groups(&self, key: i32) -> (r: Result<Option<&TagMap<usize>>, WrongStateType>)
        requires
            self.wf(),
        ensures
            match r {
                Ok(Some(m)) => self@.contains_key(key) && self@[key] == StateView::ActorGroups(m@)
                    && m.wf(),
                Ok(None) => !self@.contains_key(key),
                Err(e) => self@.contains_key(key) && !(self@[key] is ActorGroups) && e.key == key
                    && e.expected@ == "actor groups"@,
            },
    {
        match self.get(key) {
            None => Ok(None),
            Some(StateValue::ActorGroups(m)) => Ok(Some(m)),
            Some(_) => Err(WrongStateType { key, expected: "actor groups".to_owned() }),
        }
    }

    /// Takes the value under `key` out of the bag.
    pub fn remove(&mut self, key: i32) -> (r: Option<StateValue>)
        requires
            old(self).wf(),
        ensures
            final(self).wf(),
            final(self)@ == old(self)@.remove(key),
            match r {
                Some(v) => old(self)@.contains_key(key) && old(self)@[key] == v@ && v.wf(),
                None => !old(self)@.contains_key(key),
            },
    {
        let ghost before = self.entries@;
        match self.position(key) {
            Some(i) => {
                proof {
                    lemma_assoc_has(viewed(before), i as int);
                    lemma_assoc_remove(viewed(before), i as int);
                }
                let (_, v) = self.entries.remove(i);
                proof {
                    assert(viewed(self.entries@) =~= viewed(before).remove(i as int));
                    assert forall|j: int| 0 <= j < self.entries@.len() implies (
                    #[trigger] self.entries@[j]).1.wf() by {
                        if j < i {
                            assert(self.entries@[j] == before[j]);
                        } else {
                            assert(self.entries@[j] == before[j + 1]);
                        }
                    }
                }
                Some(v)
            },
            None => {
                proof {
                    lemma_assoc_lacks(viewed(before), key);
                    assert(self@ =~= old(self)@.remove(key));
                }
                None
            },
        }
    }

    /// Puts `value` under `key`, in place of what was there.
    pub fn set(&mut self, key: i32, value: StateValue)
        requires
            old(self).wf(),
            value.wf(),
        ensures
            final(self).wf(),
            final(self)@ == old(self)@.insert(key, value@),
    {
        let _ = self.remove(key);
        let ghost before = self.entries@;
        let ghost vv = value@;
        proof {
            assert(key_absent(viewed(before), key)) by {
                assert forall|i: int| 0 <= i < viewed(before).len() implies #[trigger] viewed(
                    before,
                )[i].0 != key by {
                    if viewed(before)[i].0 == key {
                        lemma_assoc_has(viewed(before), i);
                    }
                }
            }
        }
        self.entries.push((key, value));
        proof {
            lemma_assoc_push(viewed(before), key, vv);
            assert(viewed(self.entries@) =~= viewed(before).push((key, vv)));
            assert forall|j: int| 0 <= j < self.entries@.len() implies (
            #[trigger] self.entries@[j]).1.wf() by {
                if j < before.len() {
                    assert(self.entries@[j] == before[j]);
                }
            }
        }
    }
}

} // verus!
