//! An insertion-ordered association list keyed by grid points.
//!
//! A later entry for a point shadows the earlier ones, so inserting is a push
//! and the list read back to front is a map.

use vstd::prelude::*;
use crate::geometry::Point;

verus! {

/// The map that a list of entries stands for: the last entry of a key wins.
pub open spec fn map_of<V>(entries: Seq<(Point, V)>) -> Map<Point, V>
    decreases entries.len(),
{
    if entries.len() == 0 {
        Map::empty()
    } else {
        map_of(entries.drop_last()).insert(entries.last().0, entries.last().1)
    }
}

/// Every key of the map is the key of some entry, and the other way round.
pub proof fn lemma_map_of_keys<V>(entries: Seq<(Point, V)>)
    ensures
        forall|i: int| 0 <= i < entries.len() ==> map_of(entries).contains_key(#[trigger] entries[i].0),
        forall|p: Point| #[trigger]
            map_of(entries).contains_key(p) ==> exists|i: int|
                0 <= i < entries.len() && entries[i].0 == p && entries[i].1 == map_of(entries)[p],
        map_of(entries).dom().finite(),
    decreases entries.len(),
{
    if entries.len() > 0 {
        let front = entries.drop_last();
        lemma_map_of_keys(front);
        let m = map_of(entries);
        assert forall|i: int| 0 <= i < entries.len() implies m.contains_key(
            #[trigger] entries[i].0,
        ) by {
            if i < entries.len() - 1 {
                assert(front[i] == entries[i]);
            }
        }
        assert forall|p: Point| #[trigger] m.contains_key(p) implies exists|i: int|
            0 <= i < entries.len() && entries[i].0 == p && entries[i].1 == m[p] by {
            if p == entries.last().0 {
                let i = entries.len() - 1;
                assert(entries[i].0 == p && entries[i].1 == m[p]);
            } else {
                assert(map_of(front).contains_key(p));
                let i = choose|i: int|
                    0 <= i < front.len() && front[i].0 == p && front[i].1 == map_of(front)[p];
                assert(front[i] == entries[i]);
                assert(entries[i].0 == p && entries[i].1 == m[p]);
            }
        }
    }
}

/// Appending an entry inserts it into the map.
pub proof fn lemma_map_of_push<V>(entries: Seq<(Point, V)>, p: Point, v: V)
    ensures
        map_of(entries.push((p, v))) == map_of(entries).insert(p, v),
{
    let longer = entries.push((p, v));
    assert(longer.drop_last() =~= entries);
}

/// A map from grid points to values.
#[derive(Clone, Debug)]
pub struct PointMap<V> {
    pub entries: Vec<(Point, V)>,
}

impl<V> View for PointMap<V> {
    type V = Map<Point, V>;

    open spec fn view(&self) -> Map<Point, V> {
        map_of(self.entries@)
    }
}

impl<V> PointMap<V> {
    pub fn new() -> (m: Self)
        ensures
            m@ == Map::<Point, V>::empty(),
            m.entries@.len() == 0,
    {
        PointMap { entries: Vec::new() }
    }

    /// Number of entries held, shadowed ones included.
    pub fn entry_count(&self) -> (n: usize)
        ensures
            n == self.entries@.len(),
    {
        self.entries.len()
    }

    pub fn is_empty(&self) -> (e: bool)
        ensures
            e == (self@.dom() =~= Set::<Point>::empty()),
            e == (self.entries@.len() == 0),
    {
        proof {
            lemma_map_of_keys(self.entries@);
            if self.entries@.len() > 0 {
                assert(self@.contains_key(self.entries@[0].0));
            }
        }
        self.entries.len() == 0
    }

    /// Binds `p` to `v`, replacing what `p` was bound to.
    pub fn insert(&mut self, p: Point, v: V)
        ensures
            final(self)@ == old(self)@.insert(p, v),
            final(self).entries@ == old(self).entries@.push((p, v)),
    {
        proof {
            lemma_map_of_push(self.entries@, p, v);
        }
        self.entries.push((p, v));
    }

    /// The value bound to `p`, if any.
    pub fn get(&self, p: Point) -> (r: Option<&V>)
        ensures
            match r {
                Some(v) => self@.contains_key(p) && *v == self@[p],
                None => !self@.contains_key(p),
            },
    {
        let mut i: usize = self.entries.len();
        while i > 0
            invariant
                i <= self.entries@.len(),
                forall|j: int| i <= j < self.entries@.len() ==> self.entries@[j].0 != p,
            decreases i,
        {
            i -= 1;
            if self.entries[i].0 == p {
                proof {
                    lemma_get_last_match(self.entries@, p, i as int);
                }
                return Some(&self.entries[i].1);
            }
        }
        proof {
            lemma_map_of_keys(self.entries@);
        }
        None
    }

    pub fn contains_key(&self, p: Point) -> (found: bool)
        ensures
            found == self@.contains_key(p),
    {
        self.get(p).is_some()
    }

    /// The key of the `i`-th entry.
    pub fn key_at(&self, i: usize) -> (p: Point)
        requires
            i < self.entries@.len(),
        ensures
            p == self.entries@[i as int].0,
            self@.contains_key(p),
    {
        proof {
            lemma_map_of_keys(self.entries@);
        }
        self.entries[i].0
    }
}

/// The last entry for a key holds the value the map gives it.
pub proof fn lemma_get_last_match<V>(entries: Seq<(Point, V)>, p: Point, i: int)
    requires
        0 <= i < entries.len(),
        entries[i].0 == p,
        forall|j: int| i < j < entries.len() ==> entries[j].0 != p,
    ensures
        map_of(entries).contains_key(p),
        map_of(entries)[p] == entries[i].1,
    decreases entries.len(),
{
    if i < entries.len() - 1 {
        let front = entries.drop_last();
        assert(front[i] == entries[i]);
        assert forall|j: int| i < j < front.len() implies front[j].0 != p by {
            assert(front[j] == entries[j]);
        }
        lemma_get_last_match(front, p, i);
    }
}

} // verus!
