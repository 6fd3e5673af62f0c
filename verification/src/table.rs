//! A small keyed table: the emulator's per-process maps (spinlock queues,
//! threads, timers) keyed by integer identifiers.
use vstd::prelude::*;

verus! {

/// A map from integer keys to values, kept as a vector of distinct keys.
pub struct Table<V> {
    entries: Vec<(i128, V)>,
    contents: Ghost<Map<int, V>>,
}

impl<V> Table<V> {
    /// The keys and values that the table holds.
    pub closed spec fn view(&self) -> Map<int, V> {
        self.contents@
    }

    /// The entries have distinct keys, and they are exactly the contents.
    pub closed spec fn wf(&self) -> bool {
        &&& forall|i: int, j: int|
            0 <= i < j < self.entries@.len() ==> #[trigger] self.entries@[i].0 != #[trigger] self.entries@[j].0
        &&& forall|i: int|
            0 <= i < self.entries@.len() ==> self.contents@.contains_key(#[trigger] self.entries@[i].0 as int)
                && self.contents@[self.entries@[i].0 as int] == self.entries@[i].1
        &&& forall|k: int|
            #[trigger] self.contents@.contains_key(k) ==> exists|i: int|
                0 <= i < self.entries@.len() && #[trigger] self.entries@[i].0 == k
    }

    /// An empty table.
    pub fn new() -> (r: Self)
        ensures
            r.wf(),
            r.view() == Map::<int, V>::empty(),
    {
        Table { entries: Vec::new(), contents: Ghost(Map::empty()) }
    }

    /// The position of key `k` in the entries.
    fn find(&self, k: i128) -> (r: Option<usize>)
        requires
            self.wf(),
        ensures
            match r {
                Some(i) => i < self.entries@.len() && self.entries@[i as int].0 == k,
                None => !self.view().contains_key(k as int),
            },
    {
        let mut i: usize = 0;
        while i < self.entries.len()
            invariant
                self.wf(),
                i <= self.entries@.len(),
                forall|j: int| 0 <= j < i ==> #[trigger] self.entries@[j].0 != k,
            decreases self.entries@.len() - i,
        {
            if self.entries[i].0 == k {
                return Some(i);
            }
            i += 1;
        }
        None
    }

    /// Whether the table holds key `k`.
    pub fn contains(&self, k: i128) -> (r: bool)
        requires
            self.wf(),
        ensures
            r == self.view().contains_key(k as int),
    {
        self.find(k).is_some()
    }

    /// The value under key `k`.
    pub fn get(&self, k: i128) -> (r: Option<&V>)
        requires
            self.wf(),
        ensures
            match r {
                Some(v) => self.view().contains_key(k as int) && *v == self.view()[k as int],
                None => !self.view().contains_key(k as int),
            },
    {
        match self.find(k) {
            Some(i) => Some(&self.entries[i].1),
            None => None,
        }
    }

    /// Removes and returns the value under key `k`.
    pub fn remove(&mut self, k: i128) -> (r: Option<V>)
        requires
            old(self).wf(),
        ensures
            final(self).wf(),
            final(self).view() == old(self).view().remove(k as int),
            match r {
                Some(v) => old(self).view().contains_key(k as int) && v == old(self).view()[k as int],
                None => !old(self).view().contains_key(k as int),
            },
    {
        match self.find(k) {
            Some(i) => {
                let ghost old_entries = self.entries@;
                let (_, v) = self.entries.remove(i);
                self.contents = Ghost(self.contents@.remove(k as int));
                proof {
                    assert forall|a: int, b: int|
                        0 <= a < b < self.entries@.len() implies #[trigger] self.entries@[a].0
                        != #[trigger] self.entries@[b].0 by {
                        let a0 = if a < i { a } else { a + 1 };
                        let b0 = if b < i { b } else { b + 1 };
                        assert(self.entries@[a] == old_entries[a0]);
                        assert(self.entries@[b] == old_entries[b0]);
                    }
                    assert forall|a: int|
                        0 <= a < self.entries@.len() implies self.contents@.contains_key(
                        #[trigger] self.entries@[a].0 as int)
                        && self.contents@[self.entries@[a].0 as int] == self.entries@[a].1 by {
                        let a0 = if a < i { a } else { a + 1 };
                        assert(self.entries@[a] == old_entries[a0]);
                        assert(old_entries[a0].0 != old_entries[i as int].0);
                    }
                    assert forall|kk: int| #[trigger]
                        self.contents@.contains_key(kk) implies exists|a: int|
                        0 <= a < self.entries@.len() && #[trigger] self.entries@[a].0 == kk by {
                        let a0 = choose|a0: int| 0 <= a0 < old_entries.len() && #[trigger] old_entries[a0].0 == kk;
                        assert(a0 != i);
                        let a = if a0 < i { a0 } else { a0 - 1 };
                        assert(self.entries@[a] == old_entries[a0]);
                    }
                }
                Some(v)
            },
            None => {
                proof {
                    assert(self.contents@.remove(k as int) =~= self.contents@);
                }
                None
            },
        }
    }

    /// Puts `v` under key `k`, returning the value that was there.
    pub fn insert(&mut self, k: i128, v: V) -> (r: Option<V>)
        requires
            old(self).wf(),
        ensures
            final(self).wf(),
            final(self).view() == old(self).view().insert(k as int, v),
            match r {
                Some(w) => old(self).view().contains_key(k as int) && w == old(self).view()[k as int],
                None => !old(self).view().contains_key(k as int),
            },
    {
        let r = self.remove(k);
        let ghost mid = self.entries@;
        self.entries.push((k, v));
        self.contents = Ghost(self.contents@.insert(k as int, v));
        proof {
            assert(self.entries@[mid.len() as int] == (k, v));
            assert forall|a: int, b: int|
                0 <= a < b < self.entries@.len() implies #[trigger] self.entries@[a].0
                != #[trigger] self.entries@[b].0 by {
                if b == mid.len() {
                    assert(self.entries@[a] == mid[a]);
                }
            }
            assert forall|a: int|
                0 <= a < self.entries@.len() implies self.contents@.contains_key(
                #[trigger] self.entries@[a].0 as int)
                && self.contents@[self.entries@[a].0 as int] == self.entries@[a].1 by {
                if a < mid.len() {
                    assert(self.entries@[a] == mid[a]);
                }
            }
            assert forall|kk: int| #[trigger]
                self.contents@.contains_key(kk) implies exists|a: int|
                0 <= a < self.entries@.len() && #[trigger] self.entries@[a].0 == kk by {
                if kk == k {
                    assert(self.entries@[mid.len() as int].0 == kk);
                } else {
                    let a = choose|a: int| 0 <= a < mid.len() && #[trigger] mid[a].0 == kk;
                    assert(self.entries@[a] == mid[a]);
                }
            }
            assert(self.contents@ =~= old(self).view().insert(k as int, v));
        }
        r
    }
}

} // verus!
