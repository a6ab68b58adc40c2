//! A map from texts to texts.
use vstd::prelude::*;
use crate::text::chars::same;

verus! {

/// A map from texts to texts.
pub struct NameMap {
    entries: Vec<(String, String)>,
}

/// The map that a list of entries stands for: a later entry overrides an
/// earlier one of the same key.
pub closed spec fn entries_map(v: Seq<(String, String)>) -> Map<Seq<char>, Seq<char>>
    decreases v.len(),
{
    if v.len() == 0 {
        Map::empty()
    } else {
        entries_map(v.drop_last()).insert(v.last().0@, v.last().1@)
    }
}

impl View for NameMap {
    type V = Map<Seq<char>, Seq<char>>;

    closed spec fn view(&self) -> Map<Seq<char>, Seq<char>> {
        entries_map(self.entries@)
    }
}

impl NameMap {
    /// An empty map.
    pub fn new() -> (r: NameMap)
        ensures
            r@ == Map::<Seq<char>, Seq<char>>::empty(),
    {
        NameMap { entries: Vec::new() }
    }

    /// Takes a key out, and returns its value.
    pub fn remove(&mut self, key: &str) -> (r: Option<String>)
        ensures
            final(self)@ == old(self)@.remove(key@),
            match r {
                Some(v) => old(self)@.contains_key(key@) && old(self)@[key@] == v@,
                None => !old(self)@.contains_key(key@),
            },
    {
        let ghost all = self.entries@;
        let mut kept: Vec<(String, String)> = Vec::new();
        let mut found: Option<String> = None;
        proof {
            assert(all.take(0) =~= Seq::empty());
            assert(entries_map(kept@) =~= entries_map(all.take(0)).remove(key@));
        }
        for i in 0..self.entries.len()
            invariant
                all == self.entries@,
                self.entries@ == old(self).entries@,
                entries_map(kept@) == entries_map(all.take(i as int)).remove(key@),
                match found {
                    Some(v) => entries_map(all.take(i as int)).contains_key(key@) && entries_map(
                        all.take(i as int),
                    )[key@] == v@,
                    None => !entries_map(all.take(i as int)).contains_key(key@),
                },
        {
            let ghost before = entries_map(all.take(i as int));
            let entry = (self.entries[i].0.clone(), self.entries[i].1.clone());
            proof {
                assert(all.take(i + 1).drop_last() =~= all.take(i as int));
                assert(all.take(i + 1).last() == all[i as int]);
                assert(kept@.push(entry).drop_last() =~= kept@);
            }
            if same(&entry.0, key) {
                assert(before.insert(key@, entry.1@).remove(key@) =~= before.remove(key@));
                found = Some(entry.1);
            } else {
                assert(before.insert(entry.0@, entry.1@).remove(key@) =~= before.remove(
                    key@,
                ).insert(entry.0@, entry.1@));
                kept.push(entry);
            }
        }
        assert(all.take(self.entries@.len() as int) =~= all);
        self.entries = kept;
        found
    }

    /// Gives a key a value, in place of the one it may have had.
    pub fn insert(&mut self, key: String, value: String)
        ensures
            final(self)@ == old(self)@.insert(key@, value@),
    {
        let _old = self.remove(&key);
        let ghost before = self.entries@;
        let entry = (key, value);
        self.entries.push(entry);
        proof {
            assert(before.push(entry).drop_last() =~= before);
            assert(old(self)@.remove(entry.0@).insert(entry.0@, entry.1@) =~= old(self)@.insert(
                entry.0@,
                entry.1@,
            ));
        }
    }

    /// Takes every key out.
    pub fn clear(&mut self)
        ensures
            final(self)@ == Map::<Seq<char>, Seq<char>>::empty(),
    {
        self.entries = Vec::new();
    }
}

} // verus!
