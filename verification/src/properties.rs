use vstd::prelude::*;
use vstd::string::*;

use crate::css::Declaration;
use crate::text::same_text;

verus! {

/// The properties that were resolved for one node: each name has one value.
#[derive(Debug)]
pub struct PropertyMap {
    entries: Vec<Declaration>,
}

impl PropertyMap {
    #[verifier::type_invariant]
    spec fn names_differ(&self) -> bool {
        forall|i: int, j: int|
            0 <= i < j < self.entries.len() ==> (#[trigger] self.entries[i]).name@
                != (#[trigger] self.entries[j]).name@
    }

    spec fn holds(&self, name: Seq<char>, i: int) -> bool {
        0 <= i < self.entries.len() && self.entries[i].name@ == name
    }

    /// The map from each name to its value.
    pub closed spec fn view(&self) -> Map<Seq<char>, Seq<char>> {
        Map::new(
            |name: Seq<char>| exists|i: int| self.holds(name, i),
            |name: Seq<char>| self.entries[choose|i: int| self.holds(name, i)].value@,
        )
    }

    /// A map without properties.
    pub fn new() -> (m: PropertyMap)
        ensures
            m@ == Map::<Seq<char>, Seq<char>>::empty(),
    {
        let m = PropertyMap { entries: Vec::new() };
        assert(m@ =~= Map::<Seq<char>, Seq<char>>::empty());
        m
    }

    fn position(&self, name: &str) -> (r: Option<usize>)
        ensures
            r matches Some(i) ==> self.holds(name@, i as int),
            r is None ==> forall|i: int| !self.holds(name@, i),
    {
        let mut i: usize = 0;
        while i < self.entries.len()
            invariant
                i <= self.entries.len(),
                forall|k: int| 0 <= k < i ==> !self.holds(name@, k),
            decreases self.entries.len() - i,
        {
            if same_text(self.entries[i].name.as_str(), name) {
                return Some(i);
            }
            i = i + 1;
        }
        None
    }

    /// The value of `name`, if it has one.
    pub fn get(&self, name: &str) -> (r: Option<&String>)
        ensures
            r is Some <==> self@.contains_key(name@),
            r matches Some(v) ==> v@ == self@[name@],
    {
        proof {
            use_type_invariant(self);
        }
        match self.position(name) {
            Some(i) => {
                proof {
                    let c = choose|k: int| self.holds(name@, k);
                    assert(self.holds(name@, c));
                    assert(c == i);
                }
                Some(&self.entries[i].value)
            },
            None => None,
        }
    }

    /// Gives `name` the value `value`, in place of the one it had, if any.
    pub fn insert(&mut self, name: String, value: String)
        ensures
            final(self)@ == old(self)@.insert(name@, value@),
    {
        proof {
            use_type_invariant(&*self);
        }
        let found = self.position(name.as_str());
        let ghost before = *self;
        let mut entries: Vec<Declaration> = Vec::new();
        core::mem::swap(&mut entries, &mut self.entries);
        match found {
            Some(i) => {
                assert(before.holds(name@, i as int));
                entries.set(i, Declaration { name, value });
            },
            None => {
                entries.push(Declaration { name, value });
            },
        }
        assert forall|a: int, b: int| 0 <= a < b < entries.len() implies (#[trigger] entries[a]).name@
            != (#[trigger] entries[b]).name@ by {
            if b < before.entries.len() {
                assert(before.entries[a].name@ != before.entries[b].name@);
            } else {
                assert(!before.holds(name@, a));
            }
        }
        self.entries = entries;
        proof {
            let after = *self;
            assert forall|key: Seq<char>| #[trigger]
                after@.contains_key(key) == before@.insert(name@, value@).contains_key(key) by {
                if before@.contains_key(key) {
                    let k = choose|k: int| before.holds(key, k);
                    assert(after.holds(key, k) || key == name@);
                }
                if key == name@ {
                    match found {
                        Some(i) => {
                            assert(after.holds(key, i as int));
                        },
                        None => {
                            assert(after.holds(key, before.entries.len() as int));
                        },
                    }
                }
                if after@.contains_key(key) && key != name@ {
                    let k = choose|k: int| after.holds(key, k);
                    assert(before.holds(key, k));
                }
            }
            assert forall|key: Seq<char>| #[trigger]
                after@.contains_key(key) implies after@[key] == before@.insert(name@, value@)[key] by {
                let k = choose|k: int| after.holds(key, k);
                assert(after.holds(key, k));
                if key == name@ {
                    match found {
                        Some(i) => {
                            assert(after.holds(key, i as int));
                            assert(k == i);
                        },
                        None => {
                            assert(after.holds(key, before.entries.len() as int));
                            assert(k == before.entries.len());
                        },
                    }
                } else {
                    assert(before.holds(key, k));
                    let c = choose|c: int| before.holds(key, c);
                    assert(before.holds(key, c));
                    assert(c == k);
                }
            }
            assert(after@ =~= before@.insert(name@, value@));
        }
    }
}

} // verus!
