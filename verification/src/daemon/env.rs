//! Environments: values under names, in the order of the names.

use vstd::prelude::*;

use crate::daemon::command::env_texts;
use crate::text;
use crate::text::precedes;

verus! {

/// Environment variables. No name occurs twice, and they stand in the order of their names.
#[derive(Debug, PartialEq, Eq)]
pub struct EnvMap {
    rows: Vec<(String, String)>,
}

/// The names stand in order.
pub open spec fn in_order(rows: Seq<(Seq<char>, Seq<char>)>) -> bool {
    forall|a: int, b: int|
        0 <= a < b < rows.len() ==> precedes((#[trigger] rows[a]).0, (#[trigger] rows[b]).0)
}

/// No name occurs twice.
pub open spec fn distinct_names(rows: Seq<(Seq<char>, Seq<char>)>) -> bool {
    forall|a: int, b: int|
        0 <= a < b < rows.len() ==> (#[trigger] rows[a]).0 != (#[trigger] rows[b]).0
}

/// What rows hold under each name, the last of a name counting.
pub open spec fn env_map(rows: Seq<(Seq<char>, Seq<char>)>) -> Map<Seq<char>, Seq<char>>
    decreases rows.len(),
{
    if rows.len() == 0 {
        Map::empty()
    } else {
        env_map(rows.drop_last()).insert(rows.last().0, rows.last().1)
    }
}

proof fn lemma_order_is_distinct(rows: Seq<(Seq<char>, Seq<char>)>)
    requires
        in_order(rows),
    ensures
        distinct_names(rows),
{
    assert forall|a: int, b: int| 0 <= a < b < rows.len() implies (#[trigger] rows[a]).0 != (
    #[trigger] rows[b]).0 by {
        text::lemma_precedes_total(rows[a].0, rows[b].0);
    }
}

proof fn lemma_env_map(rows: Seq<(Seq<char>, Seq<char>)>)
    requires
        distinct_names(rows),
    ensures
        forall|k: Seq<char>|
            #[trigger] env_map(rows).dom().contains(k) <==> exists|i: int|
                0 <= i < rows.len() && (#[trigger] rows[i]).0 == k,
        forall|i: int| 0 <= i < rows.len() ==> env_map(rows)[(#[trigger] rows[i]).0] == rows[i].1,
        env_map(rows).dom().finite(),
        env_map(rows).dom().len() == rows.len(),
    decreases rows.len(),
{
    if rows.len() > 0 {
        let before = rows.drop_last();
        assert forall|a: int, b: int| 0 <= a < b < before.len() implies (#[trigger] before[a]).0 != (
        #[trigger] before[b]).0 by {
            assert(rows[a].0 != rows[b].0);
        }
        lemma_env_map(before);
        let last = rows.last().0;
        assert(!env_map(before).dom().contains(last)) by {
            if env_map(before).dom().contains(last) {
                let i = choose|i: int| 0 <= i < before.len() && (#[trigger] before[i]).0 == last;
                assert(rows[i].0 != rows[rows.len() - 1].0);
            }
        }
        assert(env_map(rows).dom() =~= env_map(before).dom().insert(last));
        assert forall|k: Seq<char>|
            #[trigger] env_map(rows).dom().contains(k) <==> exists|i: int|
                0 <= i < rows.len() && (#[trigger] rows[i]).0 == k by {
            if env_map(before).dom().contains(k) {
                let i = choose|i: int| 0 <= i < before.len() && (#[trigger] before[i]).0 == k;
                assert(rows[i].0 == k);
            }
            if k == last {
                assert(rows[rows.len() - 1].0 == k);
            }
            if exists|i: int| 0 <= i < rows.len() && (#[trigger] rows[i]).0 == k {
                let i = choose|i: int| 0 <= i < rows.len() && (#[trigger] rows[i]).0 == k;
                if i < before.len() {
                    assert(before[i].0 == k);
                }
            }
        }
        assert forall|i: int| 0 <= i < rows.len() implies env_map(rows)[(#[trigger] rows[i]).0]
            == rows[i].1 by {
            if i < before.len() {
                assert(before[i] == rows[i]);
                assert(rows[i].0 != rows[rows.len() - 1].0);
            }
        }
    }
}

proof fn lemma_put(
    before: Seq<(Seq<char>, Seq<char>)>,
    after: Seq<(Seq<char>, Seq<char>)>,
    p: int,
    k: Seq<char>,
    v: Seq<char>,
)
    requires
        in_order(before),
        0 <= p <= before.len(),
        forall|i: int| 0 <= i < p ==> precedes((#[trigger] before[i]).0, k),
        p < before.len() ==> !precedes(before[p].0, k),
        after == (if p < before.len() && before[p].0 == k {
            before.update(p, (k, v))
        } else {
            before.insert(p, (k, v))
        }),
    ensures
        in_order(after),
        env_map(after) == env_map(before).insert(k, v),
{
    let same = p < before.len() && before[p].0 == k;
    if p < before.len() {
        text::lemma_precedes_total(before[p].0, k);
    }
    assert forall|a: int, b: int| 0 <= a < b < after.len() implies precedes(
        (#[trigger] after[a]).0,
        (#[trigger] after[b]).0,
    ) by {
        if same {
            assert(precedes(before[a].0, before[b].0));
        } else if a == p {
            if b - 1 > p {
                assert(precedes(before[p].0, before[b - 1].0));
                text::lemma_precedes_transitive(k, before[p].0, before[b - 1].0);
            }
        } else if b == p {
        } else {
            let x = if a < p {
                a
            } else {
                a - 1
            };
            let y = if b < p {
                b
            } else {
                b - 1
            };
            assert(precedes(before[x].0, before[y].0));
        }
    }
    lemma_order_is_distinct(before);
    lemma_order_is_distinct(after);
    lemma_env_map(before);
    lemma_env_map(after);
    let want = env_map(before).insert(k, v);
    assert(after[p] == (k, v));
    assert forall|n: Seq<char>| #[trigger] env_map(after).dom().contains(n) <==> want.dom().contains(n) by {
        if env_map(after).dom().contains(n) {
            let i = choose|i: int| 0 <= i < after.len() && (#[trigger] after[i]).0 == n;
            if i != p {
                let j = if same || i < p {
                    i
                } else {
                    i - 1
                };
                assert(before[j].0 == n);
            }
        }
        if want.dom().contains(n) {
            if n == k {
                assert(after[p].0 == n);
            } else {
                let i = choose|i: int| 0 <= i < before.len() && (#[trigger] before[i]).0 == n;
                let j = if same || i < p {
                    i
                } else {
                    i + 1
                };
                assert(after[j].0 == n);
            }
        }
    }
    assert forall|n: Seq<char>| #[trigger] env_map(after).dom().contains(n) implies env_map(after)[n]
        == want[n] by {
        let i = choose|i: int| 0 <= i < after.len() && (#[trigger] after[i]).0 == n;
        assert(env_map(after)[after[i].0] == after[i].1);
        if i != p {
            let j = if same || i < p {
                i
            } else {
                i - 1
            };
            assert(before[j] == after[i]);
            if n == k {
                assert(after[p].0 == k);
                if i < p {
                    assert(after[i].0 != after[p].0);
                } else {
                    assert(after[p].0 != after[i].0);
                }
            }
        }
    }
    assert(env_map(after) =~= want);
}

proof fn lemma_taken(before: Seq<(Seq<char>, Seq<char>)>, p: int)
    requires
        in_order(before),
        0 <= p < before.len(),
    ensures
        in_order(before.remove(p)),
        env_map(before.remove(p)) == env_map(before).remove(before[p].0),
{
    let after = before.remove(p);
    let k = before[p].0;
    assert forall|a: int, b: int| 0 <= a < b < after.len() implies precedes(
        (#[trigger] after[a]).0,
        (#[trigger] after[b]).0,
    ) by {
        let x = if a < p {
            a
        } else {
            a + 1
        };
        let y = if b < p {
            b
        } else {
            b + 1
        };
        assert(precedes(before[x].0, before[y].0));
    }
    lemma_order_is_distinct(before);
    lemma_order_is_distinct(after);
    lemma_env_map(before);
    lemma_env_map(after);
    let want = env_map(before).remove(k);
    assert forall|n: Seq<char>| #[trigger] env_map(after).dom().contains(n) <==> want.dom().contains(n) by {
        if env_map(after).dom().contains(n) {
            let i = choose|i: int| 0 <= i < after.len() && (#[trigger] after[i]).0 == n;
            let j = if i < p {
                i
            } else {
                i + 1
            };
            assert(before[j].0 == n);
            if j < p {
                assert(before[j].0 != before[p].0);
            } else {
                assert(before[p].0 != before[j].0);
            }
        }
        if want.dom().contains(n) {
            let i = choose|i: int| 0 <= i < before.len() && (#[trigger] before[i]).0 == n;
            let j = if i < p {
                i
            } else {
                i - 1
            };
            assert(after[j].0 == n);
        }
    }
    assert forall|n: Seq<char>| #[trigger] env_map(after).dom().contains(n) implies env_map(after)[n]
        == want[n] by {
        let i = choose|i: int| 0 <= i < after.len() && (#[trigger] after[i]).0 == n;
        let j = if i < p {
            i
        } else {
            i + 1
        };
        assert(before[j] == after[i]);
        assert(env_map(before)[before[j].0] == before[j].1);
        assert(env_map(after)[after[i].0] == after[i].1);
    }
    assert(env_map(after) =~= want);
}

impl View for EnvMap {
    type V = Map<Seq<char>, Seq<char>>;

    closed spec fn view(&self) -> Map<Seq<char>, Seq<char>> {
        env_map(env_texts(self.rows@))
    }
}

impl EnvMap {
    #[verifier::type_invariant]
    spec fn ordered(self) -> bool {
        in_order(env_texts(self.rows@))
    }

    /// No variables.
    pub fn new() -> (m: EnvMap)
        ensures
            m@ == Map::<Seq<char>, Seq<char>>::empty(),
    {
        let m = EnvMap { rows: Vec::new() };
        assert(env_texts(m.rows@) =~= seq![]);
        m
    }

    fn position(&self, k: &str) -> (p: usize)
        ensures
            p <= self.rows@.len(),
            forall|i: int| 0 <= i < p ==> precedes((#[trigger] env_texts(self.rows@)[i]).0, k@),
            p < self.rows@.len() ==> !precedes(env_texts(self.rows@)[p as int].0, k@),
    {
        let mut p: usize = 0;
        while p < self.rows.len() && text::before(self.rows[p].0.as_str(), k)
            invariant
                p <= self.rows@.len(),
                forall|i: int| 0 <= i < p ==> precedes((#[trigger] env_texts(self.rows@)[i]).0, k@),
            decreases self.rows.len() - p,
        {
            assert(env_texts(self.rows@)[p as int].0 == self.rows@[p as int].0@);
            p = p + 1;
        }
        p
    }

    proof fn lemma_absent(&self, p: int, k: Seq<char>)
        requires
            in_order(env_texts(self.rows@)),
            0 <= p <= self.rows@.len(),
            forall|i: int| 0 <= i < p ==> precedes((#[trigger] env_texts(self.rows@)[i]).0, k),
            p < self.rows@.len() ==> !precedes(env_texts(self.rows@)[p].0, k),
            p < self.rows@.len() ==> env_texts(self.rows@)[p].0 != k,
        ensures
            !self@.dom().contains(k),
    {
        let rows = env_texts(self.rows@);
        lemma_order_is_distinct(rows);
        lemma_env_map(rows);
        assert forall|i: int| 0 <= i < rows.len() implies (#[trigger] rows[i]).0 != k by {
            text::lemma_precedes_total(rows[i].0, k);
            if p < i {
                assert(precedes(rows[p].0, rows[i].0));
                text::lemma_precedes_total(rows[p].0, k);
                text::lemma_precedes_transitive(k, rows[p].0, rows[i].0);
            }
        }
    }

    /// Set a variable.
    pub fn insert(&mut self, k: String, v: String)
        ensures
            final(self)@ == old(self)@.insert(k@, v@),
    {
        proof {
            use_type_invariant(&*self);
        }
        let p = self.position(k.as_str());
        let mut rows: Vec<(String, String)> = Vec::new();
        std::mem::swap(&mut rows, &mut self.rows);
        let ghost before = env_texts(rows@);
        let ghost (kt, vt) = (k@, v@);
        if p < rows.len() && text::same(rows[p].0.as_str(), k.as_str()) {
            assert(before[p as int].0 == kt);
            rows.set(p, (k, v));
            assert(env_texts(rows@) =~= before.update(p as int, (kt, vt)));
        } else {
            if p < rows.len() {
                assert(before[p as int].0 != kt);
            }
            rows.insert(p, (k, v));
            assert(env_texts(rows@) =~= before.insert(p as int, (kt, vt)));
        }
        proof {
            lemma_put(before, env_texts(rows@), p as int, kt, vt);
        }
        self.rows = rows;
    }

    /// Unset a variable.
    pub fn remove(&mut self, k: &str)
        ensures
            final(self)@ == old(self)@.remove(k@),
    {
        proof {
            use_type_invariant(&*self);
        }
        let p = self.position(k);
        if p < self.rows.len() && text::same(self.rows[p].0.as_str(), k) {
            let mut rows: Vec<(String, String)> = Vec::new();
            std::mem::swap(&mut rows, &mut self.rows);
            let ghost before = env_texts(rows@);
            assert(before[p as int].0 == k@);
            rows.remove(p);
            proof {
                lemma_taken(before, p as int);
                assert(env_texts(rows@) =~= before.remove(p as int));
            }
            self.rows = rows;
        } else {
            proof {
                self.lemma_absent(p as int, k@);
                assert(self@.remove(k@) =~= self@);
            }
        }
    }

    /// The value of a variable.
    pub fn get(&self, k: &str) -> (v: Option<&str>)
        ensures
            match v {
                Some(x) => self@.dom().contains(k@) && x@ == self@[k@],
                None => !self@.dom().contains(k@),
            },
    {
        proof {
            use_type_invariant(self);
            lemma_order_is_distinct(env_texts(self.rows@));
            lemma_env_map(env_texts(self.rows@));
        }
        let p = self.position(k);
        if p < self.rows.len() && text::same(self.rows[p].0.as_str(), k) {
            assert(env_texts(self.rows@)[p as int] == (self.rows@[p as int].0@, self.rows@[p as int].1@));
            Some(self.rows[p].1.as_str())
        } else {
            proof {
                self.lemma_absent(p as int, k@);
            }
            None
        }
    }

    /// How many variables there are.
    pub fn len(&self) -> (n: usize)
        ensures
            n == self@.dom().len(),
    {
        proof {
            use_type_invariant(self);
            lemma_order_is_distinct(env_texts(self.rows@));
            lemma_env_map(env_texts(self.rows@));
        }
        self.rows.len()
    }

    /// The variables, in the order of their names.
    pub fn entries(&self) -> (rows: &Vec<(String, String)>)
        ensures
            in_order(env_texts(rows@)),
            env_map(env_texts(rows@)) == self@,
    {
        proof {
            use_type_invariant(self);
        }
        &self.rows
    }

    /// The same variables once more.
    pub fn copied(&self) -> (m: EnvMap)
        ensures
            m@ == self@,
    {
        let mut m = EnvMap::new();
        m.insert_all(&self.rows);
        proof {
            lemma_over_nothing(env_texts(self.rows@));
        }
        m
    }

    /// Set variables, the last of a name counting.
    pub fn insert_all(&mut self, rows: &[(String, String)])
        ensures
            final(self)@ == over(old(self)@, env_texts(rows@)),
    {
        let ghost start = self@;
        let ghost views = env_texts(rows@);
        let mut i: usize = 0;
        assert(views.take(0) =~= seq![]);
        while i < rows.len()
            invariant
                i <= rows.len(),
                views == env_texts(rows@),
                self@ == over(start, views.take(i as int)),
            decreases rows.len() - i,
        {
            assert(views.take(i + 1).drop_last() =~= views.take(i as int));
            assert(views.take(i + 1).last() == (rows@[i as int].0@, rows@[i as int].1@));
            self.insert(rows[i].0.clone(), rows[i].1.clone());
            i = i + 1;
        }
        assert(views.take(views.len() as int) =~= views);
    }

    /// These variables, the last of a name counting.
    pub fn from_rows(rows: &[(String, String)]) -> (m: EnvMap)
        ensures
            m@ == env_map(env_texts(rows@)),
    {
        let mut m = EnvMap::new();
        m.insert_all(rows);
        proof {
            lemma_over_nothing(env_texts(rows@));
        }
        m
    }
}

/// Variables with others set on top, the last of a name counting.
pub open spec fn over(
    base: Map<Seq<char>, Seq<char>>,
    rows: Seq<(Seq<char>, Seq<char>)>,
) -> Map<Seq<char>, Seq<char>>
    decreases rows.len(),
{
    if rows.len() == 0 {
        base
    } else {
        over(base, rows.drop_last()).insert(rows.last().0, rows.last().1)
    }
}

proof fn lemma_over_nothing(rows: Seq<(Seq<char>, Seq<char>)>)
    ensures
        over(Map::empty(), rows) == env_map(rows),
    decreases rows.len(),
{
    if rows.len() > 0 {
        lemma_over_nothing(rows.drop_last());
    }
}

/// Of the variables that are set on top, the last of a name counts, and those of other names stay as
/// they were.
pub proof fn law_the_last_value_counts(
    base: Map<Seq<char>, Seq<char>>,
    rows: Seq<(Seq<char>, Seq<char>)>,
    name: Seq<char>,
    k: int,
)
    requires
        -1 <= k < rows.len(),
        k >= 0 ==> rows[k].0 == name,
        forall|j: int| k < j < rows.len() ==> (#[trigger] rows[j]).0 != name,
    ensures
        k >= 0 ==> over(base, rows).dom().contains(name) && over(base, rows)[name] == rows[k].1,
        k < 0 ==> (over(base, rows).dom().contains(name) <==> base.dom().contains(name)),
        k < 0 && base.dom().contains(name) ==> over(base, rows)[name] == base[name],
    decreases rows.len(),
{
    if rows.len() > 0 && k < rows.len() - 1 {
        assert(rows.last().0 != name);
        assert forall|j: int| k < j < rows.drop_last().len() implies (#[trigger] rows.drop_last()[j]).0
            != name by {
            assert(rows[j].0 != name);
        }
        law_the_last_value_counts(base, rows.drop_last(), name, k);
    }
}

} // verus!
