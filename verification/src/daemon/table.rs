//! Values under numbers, in the order of the numbers.

use vstd::prelude::*;

use crate::path;
use crate::path::meaning;

verus! {

/// Values under numbers. No number occurs twice, and the smaller comes first.
pub struct Table<V> {
    rows: Vec<(u64, V)>,
}

/// The numbers rise.
pub open spec fn rising<V>(rows: Seq<(u64, V)>) -> bool {
    forall|a: int, b: int| 0 <= a < b < rows.len() ==> (#[trigger] rows[a]).0 < (#[trigger] rows[b]).0
}

/// What rows hold under each number, the last of a number counting.
pub open spec fn row_map<V>(rows: Seq<(u64, V)>) -> Map<u64, V>
    decreases rows.len(),
{
    if rows.len() == 0 {
        Map::empty()
    } else {
        row_map(rows.drop_last()).insert(rows.last().0, rows.last().1)
    }
}

proof fn lemma_row_map<V>(rows: Seq<(u64, V)>)
    requires
        rising(rows),
    ensures
        forall|k: u64|
            #[trigger] row_map(rows).dom().contains(k) <==> exists|i: int|
                0 <= i < rows.len() && (#[trigger] rows[i]).0 == k,
        forall|i: int| 0 <= i < rows.len() ==> row_map(rows)[(#[trigger] rows[i]).0] == rows[i].1,
    decreases rows.len(),
{
    if rows.len() > 0 {
        let before = rows.drop_last();
        assert(rising(before)) by {
            assert forall|a: int, b: int| 0 <= a < b < before.len() implies (#[trigger] before[a]).0 < (
            #[trigger] before[b]).0 by {
                assert(rows[a].0 < rows[b].0);
            }
        }
        lemma_row_map(before);
        assert forall|k: u64|
            #[trigger] row_map(rows).dom().contains(k) <==> exists|i: int|
                0 <= i < rows.len() && (#[trigger] rows[i]).0 == k by {
            if row_map(before).dom().contains(k) {
                let i = choose|i: int| 0 <= i < before.len() && (#[trigger] before[i]).0 == k;
                assert(rows[i].0 == k);
            }
            if k == rows.last().0 {
                assert(rows[rows.len() - 1].0 == k);
            }
            if exists|i: int| 0 <= i < rows.len() && (#[trigger] rows[i]).0 == k {
                let i = choose|i: int| 0 <= i < rows.len() && (#[trigger] rows[i]).0 == k;
                if i < before.len() {
                    assert(before[i].0 == k);
                }
            }
        }
        assert forall|i: int| 0 <= i < rows.len() implies row_map(rows)[(#[trigger] rows[i]).0]
            == rows[i].1 by {
            if i < before.len() {
                assert(before[i] == rows[i]);
                assert(rows[i].0 < rows[rows.len() - 1].0);
            }
        }
    }
}

/// Rows whose numbers rise are told apart by what they hold.
proof fn lemma_row_map_insert<V>(before: Seq<(u64, V)>, after: Seq<(u64, V)>, p: int, k: u64, v: V)
    requires
        rising(before),
        0 <= p <= before.len(),
        forall|i: int| 0 <= i < p ==> (#[trigger] before[i]).0 < k,
        p < before.len() ==> k <= before[p].0,
        after == (if p < before.len() && before[p].0 == k {
            before.update(p, (k, v))
        } else {
            before.insert(p, (k, v))
        }),
    ensures
        rising(after),
        row_map(after) == row_map(before).insert(k, v),
{
    let same = p < before.len() && before[p].0 == k;
    assert(rising(after)) by {
        assert forall|a: int, b: int| 0 <= a < b < after.len() implies (#[trigger] after[a]).0 < (
        #[trigger] after[b]).0 by {
            let x = if same || a < p {
                a
            } else {
                a - 1
            };
            let y = if same || b < p {
                b
            } else {
                b - 1
            };
            if same {
                assert(before[a].0 < before[b].0);
            } else if a == p {
                assert(before[p].0 <= before[b - 1].0);
            } else if b == p {
            } else {
                assert(before[x].0 < before[y].0);
            }
        }
    }
    lemma_row_map(before);
    lemma_row_map(after);
    let want = row_map(before).insert(k, v);
    assert(after[p] == (k, v));
    assert forall|n: u64| #[trigger] row_map(after).dom().contains(n) <==> want.dom().contains(n) by {
        if row_map(after).dom().contains(n) {
            let i = choose|i: int| 0 <= i < after.len() && (#[trigger] after[i]).0 == n;
            if i != p {
                let j = if same || i < p {
                    i
                } else {
                    i - 1
                };
                assert(before[j].0 == n);
            }
        }
        if want.dom().contains(n) {
            if n == k {
                assert(after[p].0 == n);
            } else {
                let i = choose|i: int| 0 <= i < before.len() && (#[trigger] before[i]).0 == n;
                let j = if same || i < p {
                    i
                } else {
                    i + 1
                };
                assert(after[j].0 == n);
            }
        }
    }
    assert forall|n: u64| #[trigger] row_map(after).dom().contains(n) implies row_map(after)[n]
        == want[n] by {
        let i = choose|i: int| 0 <= i < after.len() && (#[trigger] after[i]).0 == n;
        assert(row_map(after)[after[i].0] == after[i].1);
        if i != p {
            let j = if same || i < p {
                i
            } else {
                i - 1
            };
            assert(before[j] == after[i]);
            if n == k {
                assert(after[p].0 == k);
                if i < p {
                    assert(after[i].0 < after[p].0);
                } else {
                    assert(after[p].0 < after[i].0);
                }
            }
        }
    }
    assert(row_map(after) =~= want);
}

proof fn lemma_row_map_remove<V>(before: Seq<(u64, V)>, p: int)
    requires
        rising(before),
        0 <= p < before.len(),
    ensures
        rising(before.remove(p)),
        row_map(before.remove(p)) == row_map(before).remove(before[p].0),
{
    let after = before.remove(p);
    let k = before[p].0;
    assert(rising(after)) by {
        assert forall|a: int, b: int| 0 <= a < b < after.len() implies (#[trigger] after[a]).0 < (
        #[trigger] after[b]).0 by {
            let x = if a < p {
                a
            } else {
                a + 1
            };
            let y = if b < p {
                b
            } else {
                b + 1
            };
            assert(before[x].0 < before[y].0);
        }
    }
    lemma_row_map(before);
    lemma_row_map(after);
    let want = row_map(before).remove(k);
    assert forall|n: u64| #[trigger] row_map(after).dom().contains(n) <==> want.dom().contains(n) by {
        if row_map(after).dom().contains(n) {
            let i = choose|i: int| 0 <= i < after.len() && (#[trigger] after[i]).0 == n;
            let j = if i < p {
                i
            } else {
                i + 1
            };
            assert(before[j].0 == n);
            if j < p {
                assert(before[j].0 < before[p].0);
            } else {
                assert(before[p].0 < before[j].0);
            }
        }
        if want.dom().contains(n) {
            let i = choose|i: int| 0 <= i < before.len() && (#[trigger] before[i]).0 == n;
            let j = if i < p {
                i
            } else {
                i - 1
            };
            assert(after[j].0 == n);
        }
    }
    assert forall|n: u64| #[trigger] row_map(after).dom().contains(n) implies row_map(after)[n]
        == want[n] by {
        let i = choose|i: int| 0 <= i < after.len() && (#[trigger] after[i]).0 == n;
        let j = if i < p {
            i
        } else {
            i + 1
        };
        assert(before[j] == after[i]);
        assert(row_map(before)[before[j].0] == before[j].1);
        assert(row_map(after)[after[i].0] == after[i].1);
    }
    assert(row_map(after) =~= want);
}

impl<V> View for Table<V> {
    type V = Map<u64, V>;

    closed spec fn view(&self) -> Map<u64, V> {
        row_map(self.rows@)
    }
}

impl<V> Table<V> {
    #[verifier::type_invariant]
    spec fn ordered(self) -> bool {
        rising(self.rows@)
    }

    /// Nothing at all.
    pub fn new() -> (t: Table<V>)
        ensures
            t@ == Map::<u64, V>::empty(),
    {
        Table { rows: Vec::new() }
    }

    fn position(&self, k: u64) -> (p: usize)
        ensures
            p <= self.rows@.len(),
            forall|i: int| 0 <= i < p ==> (#[trigger] self.rows@[i]).0 < k,
            p < self.rows@.len() ==> k <= self.rows@[p as int].0,
    {
        let mut p: usize = 0;
        while p < self.rows.len() && self.rows[p].0 < k
            invariant
                p <= self.rows@.len(),
                forall|i: int| 0 <= i < p ==> (#[trigger] self.rows@[i]).0 < k,
            decreases self.rows.len() - p,
        {
            p = p + 1;
        }
        p
    }

    /// Put a value under a number, in place of the one that is there.
    pub fn insert(&mut self, k: u64, v: V)
        ensures
            final(self)@ == old(self)@.insert(k, v),
    {
        proof {
            use_type_invariant(&*self);
        }
        let p = self.position(k);
        let mut rows: Vec<(u64, V)> = Vec::new();
        std::mem::swap(&mut rows, &mut self.rows);
        let ghost before = rows@;
        if p < rows.len() && rows[p].0 == k {
            rows.set(p, (k, v));
        } else {
            rows.insert(p, (k, v));
        }
        proof {
            lemma_row_map_insert(before, rows@, p as int, k, v);
        }
        self.rows = rows;
    }

    /// Take the value under a number out.
    pub fn remove(&mut self, k: u64) -> (v: Option<V>)
        ensures
            final(self)@ == old(self)@.remove(k),
            v == (if old(self)@.dom().contains(k) {
                Some(old(self)@[k])
            } else {
                None
            }),
    {
        proof {
            use_type_invariant(&*self);
            lemma_row_map(self.rows@);
        }
        let p = self.position(k);
        if p < self.rows.len() && self.rows[p].0 == k {
            let mut rows: Vec<(u64, V)> = Vec::new();
            std::mem::swap(&mut rows, &mut self.rows);
            proof {
                lemma_row_map_remove(rows@, p as int);
            }
            let row = rows.remove(p);
            self.rows = rows;
            Some(row.1)
        } else {
            proof {
                assert forall|i: int| 0 <= i < self.rows@.len() implies (#[trigger] self.rows@[i]).0 != k by {
                    if p < i {
                        assert(self.rows@[p as int].0 < self.rows@[i].0);
                    }
                }
                assert(self@.remove(k) =~= self@);
            }
            None
        }
    }

    /// The value under a number.
    pub fn get(&self, k: u64) -> (v: Option<&V>)
        ensures
            match v {
                Some(x) => self@.dom().contains(k) && *x == self@[k],
                None => !self@.dom().contains(k),
            },
    {
        proof {
            use_type_invariant(&*self);
            lemma_row_map(self.rows@);
        }
        let p = self.position(k);
        if p < self.rows.len() && self.rows[p].0 == k {
            Some(&self.rows[p].1)
        } else {
            proof {
                assert forall|i: int| 0 <= i < self.rows@.len() implies (#[trigger] self.rows@[i]).0 != k by {
                    if p < i {
                        assert(self.rows@[p as int].0 < self.rows@[i].0);
                    }
                }
            }
            None
        }
    }

    /// Whether there is a value under a number.
    pub fn has(&self, k: u64) -> (yes: bool)
        ensures
            yes == self@.dom().contains(k),
    {
        self.get(k).is_some()
    }

    /// The numbers, the smaller first.
    pub fn keys(&self) -> (keys: Vec<u64>)
        ensures
            forall|a: int, b: int| 0 <= a < b < keys@.len() ==> #[trigger] keys@[a] < #[trigger] keys@[b],
            forall|k: u64| #[trigger] self@.dom().contains(k) <==> keys@.contains(k),
            keys@.no_duplicates(),
    {
        proof {
            use_type_invariant(&*self);
            lemma_row_map(self.rows@);
        }
        let mut keys: Vec<u64> = Vec::new();
        let mut i: usize = 0;
        while i < self.rows.len()
            invariant
                i <= self.rows@.len(),
                keys@.len() == i,
                forall|j: int| 0 <= j < i ==> #[trigger] keys@[j] == self.rows@[j].0,
            decreases self.rows.len() - i,
        {
            keys.push(self.rows[i].0);
            i = i + 1;
        }
        proof {
            assert forall|a: int, b: int| 0 <= a < b < keys@.len() implies #[trigger] keys@[a]
                < #[trigger] keys@[b] by {
                assert(self.rows@[a].0 < self.rows@[b].0);
            }
            assert forall|k: u64| #[trigger] self@.dom().contains(k) <==> keys@.contains(k) by {
                if self@.dom().contains(k) {
                    let i = choose|i: int| 0 <= i < self.rows@.len() && (#[trigger] self.rows@[i]).0 == k;
                    assert(keys@[i] == k);
                }
                if keys@.contains(k) {
                    let i = choose|i: int| 0 <= i < keys@.len() && keys@[i] == k;
                    assert(self.rows@[i].0 == k);
                }
            }
        }
        keys
    }
}

/// What a path says.
pub type Place = (bool, bool, Seq<Seq<char>>);

/// Numbers under paths, the last that was put under a path counting. Two paths that say the same are
/// one.
pub struct PathTable {
    rows: Vec<(String, u64)>,
}

/// What rows hold under each path.
pub open spec fn path_map(rows: Seq<(String, u64)>) -> Map<Place, u64>
    decreases rows.len(),
{
    if rows.len() == 0 {
        Map::empty()
    } else {
        path_map(rows.drop_last()).insert(meaning(rows.last().0@), rows.last().1)
    }
}

impl View for PathTable {
    type V = Map<Place, u64>;

    closed spec fn view(&self) -> Map<Place, u64> {
        path_map(self.rows@)
    }
}

impl PathTable {
    /// Nothing at all.
    pub fn new() -> (t: PathTable)
        ensures
            t@ == Map::<Place, u64>::empty(),
    {
        PathTable { rows: Vec::new() }
    }

    /// Put a number under a path.
    pub fn insert(&mut self, k: String, n: u64)
        ensures
            final(self)@ == old(self)@.insert(meaning(k@), n),
    {
        let ghost before = self.rows@;
        self.rows.push((k, n));
        assert(self.rows@.drop_last() =~= before);
    }

    /// The number under a path.
    pub fn get(&self, k: &str) -> (n: Option<u64>)
        ensures
            match n {
                Some(x) => self@.dom().contains(meaning(k@)) && x == self@[meaning(k@)],
                None => !self@.dom().contains(meaning(k@)),
            },
    {
        let mut i: usize = self.rows.len();
        assert(self.rows@.take(self.rows@.len() as int) =~= self.rows@);
        while i > 0
            invariant
                i <= self.rows.len(),
                path_map(self.rows@).dom().contains(meaning(k@)) == path_map(self.rows@.take(i as int)).dom().contains(meaning(k@)),
                path_map(self.rows@).dom().contains(meaning(k@)) ==> path_map(self.rows@)[meaning(k@)] == path_map(
                    self.rows@.take(i as int),
                )[meaning(k@)],
            decreases i,
        {
            assert(self.rows@.take(i as int).drop_last() =~= self.rows@.take(i - 1));
            if path::same_path(self.rows[i - 1].0.as_str(), k) {
                return Some(self.rows[i - 1].1);
            }
            i = i - 1;
        }
        None
    }

    /// Take the number under a path out.
    pub fn remove(&mut self, k: &str)
        ensures
            final(self)@ == old(self)@.remove(meaning(k@)),
    {
        let mut out: Vec<(String, u64)> = Vec::new();
        let mut i: usize = 0;
        assert(path_map(out@) =~= path_map(self.rows@.take(0)).remove(meaning(k@)));
        while i < self.rows.len()
            invariant
                i <= self.rows.len(),
                path_map(out@) == path_map(self.rows@.take(i as int)).remove(meaning(k@)),
            decreases self.rows.len() - i,
        {
            let ghost before = out@;
            assert(self.rows@.take(i + 1).drop_last() =~= self.rows@.take(i as int));
            if !path::same_path(self.rows[i].0.as_str(), k) {
                out.push((self.rows[i].0.clone(), self.rows[i].1));
                assert(out@.drop_last() =~= before);
                assert(path_map(out@) =~= path_map(self.rows@.take(i + 1)).remove(meaning(k@)));
            } else {
                assert(path_map(out@) =~= path_map(self.rows@.take(i + 1)).remove(meaning(k@)));
            }
            i = i + 1;
        }
        assert(self.rows@.take(self.rows@.len() as int) =~= self.rows@);
        self.rows = out;
    }
}

} // verus!
