//! Small tables from names to values, in the order in which the names came.

use crate::text::same;
use vstd::prelude::*;

verus! {

/// A table from names to values, in which no name occurs twice.
#[derive(Debug, Clone)]
pub struct Table<V> {
    pub entries: Vec<(String, V)>,
}

/// The position at or after `from` of the entry for a name.
pub open spec fn entry_at<V>(entries: Seq<(String, V)>, name: Seq<char>, from: int) -> Option<int>
    decreases entries.len() - from,
{
    if from < 0 || from >= entries.len() {
        None
    } else if entries[from].0@ == name {
        Some(from)
    } else {
        entry_at(entries, name, from + 1)
    }
}

/// The value of a name.
pub open spec fn value_of<V>(entries: Seq<(String, V)>, name: Seq<char>) -> Option<V> {
    match entry_at(entries, name, 0) {
        Some(i) => Some(entries[i].1),
        None => None,
    }
}

proof fn lemma_entry_at<V>(entries: Seq<(String, V)>, name: Seq<char>, from: int)
    requires
        0 <= from,
    ensures
        match entry_at(entries, name, from) {
            Some(i) => {
                &&& from <= i < entries.len()
                &&& entries[i].0@ == name
                &&& forall|j: int| from <= j < i ==> (#[trigger] entries[j]).0@ != name
            },
            None => forall|j: int| from <= j < entries.len() ==> (#[trigger] entries[j]).0@ != name,
        },
    decreases entries.len() - from,
{
    if from < entries.len() {
        lemma_entry_at(entries, name, from + 1);
    }
}

impl<V> View for Table<V> {
    type V = Map<Seq<char>, V>;

    open spec fn view(&self) -> Map<Seq<char>, V> {
        Map::new(
            |name: Seq<char>| value_of(self.entries@, name) is Some,
            |name: Seq<char>| value_of(self.entries@, name)->0,
        )
    }
}

impl<V> Table<V> {
    /// No name occurs twice.
    pub open spec fn wf(&self) -> bool {
        forall|i: int, j: int|
            0 <= i < j < self.entries@.len() ==> (#[trigger] self.entries@[i]).0@ != (
            #[trigger] self.entries@[j]).0@
    }

    pub fn new() -> (r: Self)
        ensures
            r.wf(),
            r@ == Map::<Seq<char>, V>::empty(),
            r.entries@.len() == 0,
    {
        let r = Table { entries: Vec::new() };
        assert(r@ =~= Map::empty());
        r
    }

    /// What an entry says, the table maps its name to.
    pub proof fn lemma_entry(&self, i: int)
        requires
            self.wf(),
            0 <= i < self.entries@.len(),
        ensures
            self@.dom().contains(self.entries@[i].0@),
            self@[self.entries@[i].0@] == self.entries@[i].1,
    {
        lemma_entry_at(self.entries@, self.entries@[i].0@, 0);
    }

    /// A name in the table has an entry.
    pub proof fn lemma_has_entry(&self, name: Seq<char>) -> (i: int)
        requires
            self@.dom().contains(name),
        ensures
            0 <= i < self.entries@.len(),
            self.entries@[i].0@ == name,
            self.entries@[i].1 == self@[name],
    {
        lemma_entry_at(self.entries@, name, 0);
        entry_at(self.entries@, name, 0)->0
    }

    fn position(&self, name: &str) -> (r: Option<usize>)
        ensures
            match r {
                Some(i) => entry_at(self.entries@, name@, 0) == Some(i as int) && i
                    < self.entries@.len() && self.entries@[i as int].0@ == name@,
                None => entry_at(self.entries@, name@, 0) is None,
            },
    {
        let mut i: usize = 0;
        while i < self.entries.len()
            invariant
                i <= self.entries@.len(),
                entry_at(self.entries@, name@, i as int) == entry_at(self.entries@, name@, 0),
            decreases self.entries@.len() - i,
        {
            if same(self.entries[i].0.as_str(), name) {
                return Some(i);
            }
            i = i + 1;
        }
        None
    }

    /// The value of a name.
    pub fn get(&self, name: &str) -> (r: Option<&V>)
        ensures
            match r {
                Some(v) => self@.dom().contains(name@) && self@[name@] == *v,
                None => !self@.dom().contains(name@),
            },
    {
        match self.position(name) {
            Some(i) => Some(&self.entries[i].1),
            None => None,
        }
    }

    /// Gives a name a value.
    pub fn set(&mut self, name: &str, value: V)
        requires
            old(self).wf(),
        ensures
            final(self).wf(),
            final(self)@ == old(self)@.insert(name@, value),
            final(self).entries@.len() == old(self).entries@.len() + if old(self)@.dom().contains(
                name@,
            ) {
                0int
            } else {
                1
            },
            match entry_at(old(self).entries@, name@, 0) {
                Some(i) => final(self).entries@ == old(self).entries@.update(
                    i,
                    (old(self).entries@[i].0, value),
                ),
                None => final(self).entries@.drop_last() == old(self).entries@
                    && final(self).entries@.last().1 == value,
            },
    {
        let ghost before = self.entries@;
        proof {
            lemma_entry_at(before, name@, 0);
        }
        match self.position(name) {
            Some(i) => {
                let key = self.entries[i].0.clone();
                self.entries.set(i, (key, value));
                assert forall|n: Seq<char>| #[trigger]
                    value_of(self.entries@, n) == if n == name@ {
                        Some(value)
                    } else {
                        value_of(before, n)
                    } by {
                    lemma_entry_at(before, n, 0);
                    lemma_entry_at(self.entries@, n, 0);
                    assert forall|j: int| 0 <= j < before.len() implies (
                    #[trigger] self.entries@[j]).0@ == before[j].0@ by {}
                    if n == name@ {
                        assert(self.entries@[i as int].0@ == n);
                    }
                    if let Some(k) = entry_at(before, n, 0) {
                        assert(self.entries@[k].0@ == n);
                    }
                }
            },
            None => {
                self.entries.push((name.to_owned(), value));
                assert forall|n: Seq<char>| #[trigger]
                    value_of(self.entries@, n) == if n == name@ {
                        Some(value)
                    } else {
                        value_of(before, n)
                    } by {
                    lemma_entry_at(before, n, 0);
                    lemma_entry_at(self.entries@, n, 0);
                    let last = before.len() as int;
                    assert(self.entries@[last].0@ == name@);
                    assert forall|j: int| 0 <= j < before.len() implies #[trigger] self.entries@[j]
                        == before[j] by {}
                    if let Some(k) = entry_at(before, n, 0) {
                        assert(self.entries@[k].0@ == n);
                    }
                }
            },
        }
        assert(self@ =~= old(self)@.insert(name@, value));
        assert(entry_at(before, name@, 0) is None ==> self.entries@.drop_last() =~= before);
    }
}

// ---------------------------------------------------------------------
// Counts
// ---------------------------------------------------------------------

/// The sum of the first `n` counts.
pub open spec fn total_to(entries: Seq<(String, u64)>, n: int) -> nat
    decreases n,
{
    if n <= 0 {
        0
    } else {
        total_to(entries, n - 1) + entries[n - 1].1 as nat
    }
}

/// The sum of all counts.
pub open spec fn total(entries: Seq<(String, u64)>) -> nat {
    total_to(entries, entries.len() as int)
}

proof fn lemma_total_grows(entries: Seq<(String, u64)>, m: int, n: int)
    requires
        0 <= m <= n <= entries.len(),
    ensures
        total_to(entries, m) <= total_to(entries, n),
    decreases n - m,
{
    if m < n {
        lemma_total_grows(entries, m, n - 1);
    }
}

pub fn sum_counts(counts: &Table<u64>) -> (r: u64)
    requires
        total(counts.entries@) <= u64::MAX,
    ensures
        r == total(counts.entries@),
{
    let mut sum: u64 = 0;
    for i in 0..counts.entries.len()
        invariant
            total(counts.entries@) <= u64::MAX,
            sum == total_to(counts.entries@, i as int),
    {
        proof {
            lemma_total_grows(counts.entries@, i + 1, counts.entries@.len() as int);
        }
        sum = sum + counts.entries[i].1;
    }
    sum
}

proof fn lemma_total_same(a: Seq<(String, u64)>, b: Seq<(String, u64)>, n: int)
    requires
        0 <= n <= a.len(),
        n <= b.len(),
        forall|i: int| 0 <= i < n ==> (#[trigger] a[i]).1 == b[i].1,
    ensures
        total_to(a, n) == total_to(b, n),
    decreases n,
{
    if n > 0 {
        lemma_total_same(a, b, n - 1);
        assert(a[n - 1].1 == b[n - 1].1);
    }
}

proof fn lemma_total_update(a: Seq<(String, u64)>, i: int, entry: (String, u64), n: int)
    requires
        0 <= i < n <= a.len(),
    ensures
        total_to(a.update(i, entry), n) + a[i].1 == total_to(a, n) + entry.1,
    decreases n,
{
    if i == n - 1 {
        lemma_total_same(a.update(i, entry), a, n - 1);
    } else {
        lemma_total_update(a, i, entry, n - 1);
    }
}


impl Table<u64> {
    /// The count of a name.
    pub open spec fn count(&self, name: Seq<char>) -> nat {
        if self@.dom().contains(name) {
            self@[name] as nat
        } else {
            0
        }
    }

    /// Counts a name once more.
    pub fn tally(&mut self, name: &str)
        requires
            old(self).wf(),
            old(self).count(name@) < u64::MAX,
        ensures
            final(self).wf(),
            final(self)@ == old(self)@.insert(name@, (old(self).count(name@) + 1) as u64),
            total(final(self).entries@) == total(old(self).entries@) + 1,
    {
        let ghost before = self.entries@;
        let n: u64 = match self.get(name) {
            Some(n) => *n,
            None => 0,
        };
        self.set(name, n + 1);
        proof {
            let after = self.entries@;
            match entry_at(before, name@, 0) {
                Some(i) => {
                    lemma_entry_at(before, name@, 0);
                    let entry = (before[i].0, (n + 1) as u64);
                    lemma_total_update(before, i, entry, before.len() as int);
                },
                None => {
                    lemma_total_same(after, after.drop_last(), before.len() as int);
                },
            }
        }
    }
}

} // verus!
