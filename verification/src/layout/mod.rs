//! Placement of diagram elements on a character grid.
use vstd::prelude::*;

pub mod flowchart;
pub mod sequence;

use crate::text::{chars_eq, chars_of};

verus! {

/// A positioned element on the canvas.
#[derive(Debug, Clone, Copy, PartialEq, Eq, Structural)]
pub struct Position {
    pub x: usize,
    pub y: usize,
    pub width: usize,
    pub height: usize,
}

/// The index of the entry for `key`.
pub open spec fn key_index_from(es: Seq<(Seq<char>, Position)>, key: Seq<char>, i: int) -> Option<int>
    decreases es.len() - i,
{
    if i < 0 || i >= es.len() {
        None
    } else if es[i].0 == key {
        Some(i)
    } else {
        key_index_from(es, key, i + 1)
    }
}

pub open spec fn key_index(es: Seq<(Seq<char>, Position)>, key: Seq<char>) -> Option<int> {
    key_index_from(es, key, 0)
}

/// The position recorded for `key`.
pub open spec fn lookup(es: Seq<(Seq<char>, Position)>, key: Seq<char>) -> Option<Position> {
    match key_index(es, key) {
        Some(i) => Some(es[i].1),
        None => None,
    }
}

/// The entries after recording `pos` for `key`: an existing entry for `key`
/// takes the new position, otherwise a new entry is appended.
pub open spec fn insert_entry(es: Seq<(Seq<char>, Position)>, key: Seq<char>, pos: Position) -> Seq<
    (Seq<char>, Position),
> {
    match key_index(es, key) {
        Some(i) => es.update(i, (key, pos)),
        None => es.push((key, pos)),
    }
}

/// No key occurs twice.
pub open spec fn keys_distinct(es: Seq<(Seq<char>, Position)>) -> bool {
    forall|i: int, j: int| 0 <= i < j < es.len() ==> es[i].0 != es[j].0
}

/// Positions of diagram elements, keyed by element id. The entries are kept
/// in a vector whose keys never repeat (the type invariant), so that what a
/// lookup returns after an insert is proved.
#[derive(Debug)]
pub struct PositionMap {
    entries: Vec<(String, Position)>,
}

impl View for PositionMap {
    type V = Seq<(Seq<char>, Position)>;

    closed spec fn view(&self) -> Seq<(Seq<char>, Position)> {
        self.entries@.map_values(|e: (String, Position)| (e.0@, e.1))
    }
}

pub proof fn lemma_key_index_from(es: Seq<(Seq<char>, Position)>, key: Seq<char>, i: int)
    requires
        0 <= i,
    ensures
        key_index_from(es, key, i) matches Some(k) ==> i <= k < es.len() && es[k].0 == key
            && forall|m: int| i <= m < k ==> es[m].0 != key,
        key_index_from(es, key, i) is None ==> forall|m: int| i <= m < es.len() ==> es[m].0 != key,
    decreases es.len() - i,
{
    if i < es.len() && es[i].0 != key {
        lemma_key_index_from(es, key, i + 1);
    }
}

/// Recording `pos` for `key` keeps the keys distinct.
pub proof fn lemma_insert_keeps_distinct(es: Seq<(Seq<char>, Position)>, key: Seq<char>, pos: Position)
    requires
        keys_distinct(es),
    ensures
        keys_distinct(insert_entry(es, key, pos)),
{
    lemma_key_index_from(es, key, 0);
}

/// A position read back after it was recorded is the one recorded, and
/// recording under one key leaves every other key's position as it was.
pub proof fn lemma_lookup_insert(
    es: Seq<(Seq<char>, Position)>,
    key: Seq<char>,
    pos: Position,
    other: Seq<char>,
)
    ensures
        lookup(insert_entry(es, key, pos), key) == Some(pos),
        other != key ==> lookup(insert_entry(es, key, pos), other) == lookup(es, other),
{
    let es2 = insert_entry(es, key, pos);
    lemma_key_index_from(es, key, 0);
    lemma_key_index_from(es2, key, 0);
    lemma_key_index_from(es, other, 0);
    lemma_key_index_from(es2, other, 0);
    let n = match key_index(es, key) {
        Some(i) => i,
        None => es.len() as int,
    };
    assert(es2[n].0 == key);
    assert(forall|m: int| 0 <= m < n ==> es2[m] == es[m]);
    if other != key {
        assert(forall|m: int| 0 <= m < es2.len() && m != n ==> es2[m] == es[m]);
        match key_index(es, other) {
            Some(j) => {
                assert(key_index(es2, other) == Some(j));
            },
            None => {
                assert(key_index(es2, other) is None);
            },
        }
    }
}

impl PositionMap {
    #[verifier::type_invariant]
    spec fn distinct(&self) -> bool {
        keys_distinct(self@)
    }

    /// An empty map.
    pub fn new() -> (m: Self)
        ensures
            m@ == Seq::<(Seq<char>, Position)>::empty(),
    {
        let m = PositionMap { entries: Vec::new() };
        proof {
            assert(m@ =~= Seq::<(Seq<char>, Position)>::empty());
        }
        m
    }

    /// The number of keys.
    pub fn len(&self) -> (n: usize)
        ensures
            n == self@.len(),
    {
        self.entries.len()
    }

    fn index_of(&self, key: &[char]) -> (r: Option<usize>)
        ensures
            r matches Some(i) ==> key_index(self@, key@) == Some(i as int) && i < self@.len()
                && self@[i as int].0 == key@,
            r is None ==> key_index(self@, key@) is None,
    {
        proof {
            lemma_key_index_from(self@, key@, 0);
        }
        let mut i: usize = 0;
        while i < self.entries.len()
            invariant
                0 <= i <= self@.len(),
                self@.len() == self.entries@.len(),
                key_index_from(self@, key@, i as int) == key_index(self@, key@),
            decreases self.entries.len() - i,
        {
            let k = chars_of(self.entries[i].0.as_str());
            if chars_eq(k.as_slice(), key) {
                return Some(i);
            }
            i = i + 1;
        }
        None
    }

    /// The entry at index `i`.
    pub fn entry(&self, i: usize) -> (r: Position)
        requires
            i < self@.len(),
        ensures
            r == self@[i as int].1,
    {
        self.entries[i].1
    }

    /// Records `pos` for `key`, replacing an earlier position for it.
    pub fn insert(&mut self, key: String, pos: Position)
        ensures
            final(self)@ == insert_entry(old(self)@, key@, pos),
            keys_distinct(final(self)@),
    {
        proof {
            use_type_invariant(&*self);
            lemma_insert_keeps_distinct(self@, key@, pos);
        }
        let k = chars_of(key.as_str());
        let ghost old_view = self@;
        match self.index_of(k.as_slice()) {
            Some(i) => {
                let mut entries = Vec::new();
                std::mem::swap(&mut entries, &mut self.entries);
                proof {
                    assert(entries@.len() == old_view.len());
                }
                entries.set(i, (key, pos));
                proof {
                    assert(entries@.map_values(|e: (String, Position)| (e.0@, e.1)) =~= old_view.update(i as int, (k@, pos)));
                }
                self.entries = entries;
            },
            None => {
                let mut entries = Vec::new();
                std::mem::swap(&mut entries, &mut self.entries);
                entries.push((key, pos));
                proof {
                    assert(entries@.map_values(|e: (String, Position)| (e.0@, e.1)) =~= old_view.push((k@, pos)));
                }
                self.entries = entries;
            },
        }
    }

    /// The position recorded for `key`.
    pub fn get(&self, key: &str) -> (r: Option<Position>)
        ensures
            r == lookup(self@, key@),
    {
        let k = chars_of(key);
        match self.index_of(k.as_slice()) {
            Some(i) => Some(self.entries[i].1),
            None => None,
        }
    }
}

} // verus!
