//! An in-memory byte store: the key-addressed persistent storage behind the
//! file routes.  Its view is a map from key bytes to value bytes; writing
//! the same key again replaces the stored bytes (last writer wins).

use vstd::prelude::*;

verus! {

/// Map described by an association list, later entries shadowing earlier
/// ones.
pub open spec fn entries_map(s: Seq<(Vec<u8>, Vec<u8>)>) -> Map<Seq<u8>, Seq<u8>>
    decreases s.len(),
{
    if s.len() == 0 {
        Map::empty()
    } else {
        entries_map(s.drop_last()).insert(s.last().0@, s.last().1@)
    }
}

/// Key-addressed storage of byte strings.
pub struct Store {
    entries: Vec<(Vec<u8>, Vec<u8>)>,
}

impl View for Store {
    type V = Map<Seq<u8>, Seq<u8>>;

    closed spec fn view(&self) -> Map<Seq<u8>, Seq<u8>> {
        entries_map(self.entries@)
    }
}

impl Store {
    /// An empty store.
    pub fn new() -> (r: Store)
        ensures
            r@ == Map::<Seq<u8>, Seq<u8>>::empty(),
    {
        Store { entries: Vec::new() }
    }

    /// The bytes stored under `key`, if any.
    pub fn get(&self, key: &Vec<u8>) -> (r: Option<Vec<u8>>)
        ensures
            match r {
                Some(v) => self@.contains_key(key@) && self@[key@] == v@,
                None => !self@.contains_key(key@),
            },
    {
        proof {
            assert(self.entries@.take(self.entries@.len() as int) =~= self.entries@);
        }
        let mut i: usize = self.entries.len();
        while i > 0
            invariant
                i <= self.entries@.len(),
                ({
                    let whole = entries_map(self.entries@);
                    let part = entries_map(self.entries@.take(i as int));
                    whole.contains_key(key@) == part.contains_key(key@) && (
                    whole.contains_key(key@) ==> whole[key@] == part[key@])
                }),
            decreases i,
        {
            i = i - 1;
            let pair = &self.entries[i];
            proof {
                assert(self.entries@.take(i + 1).drop_last() =~= self.entries@.take(i as int));
                assert(self.entries@.take(i + 1).last() == self.entries@[i as int]);
            }
            if pair.0 == *key {
                proof {
                    assert(pair.0@ =~= key@);
                }
                return Some(pair.1.clone());
            }
            proof {
                assert(!(pair.0@ =~= key@)) by {
                    assert(pair.0@.len() == pair.0.len());
                }
            }
        }
        proof {
            assert(self.entries@.take(0).len() == 0);
        }
        None
    }

    /// Store `value` under `key`, replacing anything stored there before.
    pub fn put(&mut self, key: Vec<u8>, value: Vec<u8>)
        ensures
            final(self)@ == old(self)@.insert(key@, value@),
    {
        let ghost k = key@;
        let ghost v = value@;
        self.entries.push((key, value));
        proof {
            assert(self.entries@.drop_last() =~= old(self).entries@);
            assert(self.entries@.last() == (self.entries@.last().0, self.entries@.last().1));
            assert(self.entries@.last().0@ == k && self.entries@.last().1@ == v);
        }
    }
}

} // verus!
