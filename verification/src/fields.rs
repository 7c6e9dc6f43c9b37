//! Texts by key.

use crate::text;
use vstd::prelude::*;

verus! {

/// Values by key; a later value for a key hides an earlier one.
pub struct Fields {
    rows: Vec<(String, String)>,
}

spec fn rows_map(rows: Seq<(String, String)>) -> Map<Seq<char>, Seq<char>>
    decreases rows.len(),
{
    if rows.len() == 0 {
        Map::empty()
    } else {
        rows_map(rows.drop_last()).insert(rows.last().0@, rows.last().1@)
    }
}

impl View for Fields {
    type V = Map<Seq<char>, Seq<char>>;

    closed spec fn view(&self) -> Map<Seq<char>, Seq<char>> {
        rows_map(self.rows@)
    }
}

impl Fields {
    /// No values.
    pub fn new() -> (r: Self)
        ensures
            r@ == Map::<Seq<char>, Seq<char>>::empty(),
    {
        Fields { rows: Vec::new() }
    }

    /// Sets a value.
    pub fn insert(&mut self, key: String, value: String)
        ensures
            final(self)@ == old(self)@.insert(key@, value@),
    {
        self.rows.push((key, value));
        assert(self.rows@.drop_last() =~= old(self).rows@);
    }

    /// The value of a key, if it has one.
    pub fn get(&self, key: &str) -> (r: Option<String>)
        ensures
            r is Some <==> self@.contains_key(key@),
            r is Some ==> r->0@ == self@[key@],
    {
        let mut i: usize = self.rows.len();
        assert(self.rows@.take(i as int) =~= self.rows@);
        while i > 0
            invariant
                i <= self.rows.len(),
                self@.contains_key(key@) <==> rows_map(self.rows@.take(i as int)).contains_key(
                    key@,
                ),
                self@.contains_key(key@) ==> self@[key@] == rows_map(
                    self.rows@.take(i as int),
                )[key@],
            decreases i,
        {
            let ghost head = self.rows@.take(i as int);
            assert(head.drop_last() =~= self.rows@.take(i - 1));
            if text::str_eq(self.rows[i - 1].0.as_str(), key) {
                return Some(self.rows[i - 1].1.clone());
            }
            i -= 1;
        }
        None
    }
}

} // verus!
