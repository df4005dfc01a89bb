//! Query results: a small map from a queried name to the list of names found
//! under it.

use crate::text::{same_text, views};
use vstd::prelude::*;

verus! {

/// The map that a row of entries spells. A later entry replaces an earlier
/// one with the same key.
pub open spec fn entries_map(entries: Seq<(String, Vec<String>)>) -> Map<
    Seq<char>,
    Seq<Seq<char>>,
>
    decreases entries.len(),
{
    if entries.len() == 0 {
        Map::empty()
    } else {
        entries_map(entries.drop_last()).insert(entries.last().0@, views(entries.last().1@))
    }
}

/// What a query found: for each name that was asked for, the names stored
/// under it.
#[derive(Debug)]
pub struct QueryResults {
    entries: Vec<(String, Vec<String>)>,
}

impl View for QueryResults {
    type V = Map<Seq<char>, Seq<Seq<char>>>;

    /// The map from each name that was asked for to the names found.
    closed spec fn view(&self) -> Self::V {
        entries_map(self.entries@)
    }
}

impl QueryResults {
    /// Results that hold nothing.
    pub fn new() -> (r: Self)
        ensures
            r@ == Map::<Seq<char>, Seq<Seq<char>>>::empty(),
    {
        QueryResults { entries: Vec::new() }
    }

    /// The names found under `key`, or `None` where `key` was not asked for.
    pub fn get(&self, key: &str) -> (r: Option<&Vec<String>>)
        ensures
            match r {
                Some(list) => self@.dom().contains(key@) && views(list@) == self@[key@],
                None => !self@.dom().contains(key@),
            },
    {
        let mut i: usize = self.entries.len();
        proof {
            assert(self.entries@.take(i as int) =~= self.entries@);
        }
        while i > 0
            invariant
                i <= self.entries.len(),
                self@.dom().contains(key@) == entries_map(self.entries@.take(i as int)).dom().contains(
                    key@,
                ),
                self@.dom().contains(key@) ==> self@[key@] == entries_map(
                    self.entries@.take(i as int),
                )[key@],
            decreases i,
        {
            proof {
                let upto = self.entries@.take(i as int);
                assert(upto.drop_last() =~= self.entries@.take(i - 1));
                assert(upto.last() == self.entries@[i - 1]);
                assert(entries_map(upto) == entries_map(upto.drop_last()).insert(
                    upto.last().0@,
                    views(upto.last().1@),
                ));
            }
            if same_text(self.entries[i - 1].0.as_str(), key) {
                return Some(&self.entries[i - 1].1);
            }
            i -= 1;
        }
        None
    }

    /// Puts `list` under `key`, in place of what was there.
    pub fn insert(&mut self, key: String, list: Vec<String>)
        ensures
            final(self)@ == old(self)@.insert(key@, views(list@)),
    {
        let ghost before = self.entries@;
        self.entries.push((key, list));
        proof {
            assert(self.entries@.drop_last() =~= before);
        }
    }

    /// The entries in the order in which they were put in. A later entry
    /// replaces an earlier one with the same key.
    pub fn into_entries(self) -> (entries: Vec<(String, Vec<String>)>)
        ensures
            entries_map(entries@) == self@,
    {
        self.entries
    }
}

} // verus!
