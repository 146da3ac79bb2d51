//! A table of occurrence counts keyed by strings, kept in the order in which
//! each key was first counted.
use vstd::prelude::*;

verus! {

/// A counting table: a sequence of (key, count) entries.
pub type CountSeq = Seq<(Seq<char>, nat)>;

/// Index of the entry of `m` with key `k`, searching from the end, or -1.
pub open spec fn find_key(m: CountSeq, k: Seq<char>) -> int
    decreases m.len(),
{
    if m.len() == 0 {
        -1
    } else if m.last().0 == k {
        m.len() - 1
    } else {
        find_key(m.drop_last(), k)
    }
}

/// How many times `k` has been counted in `m`.
pub open spec fn count_of(m: CountSeq, k: Seq<char>) -> nat {
    let i = find_key(m, k);
    if i >= 0 {
        m[i].1
    } else {
        0
    }
}

/// The count recorded for `k` in `m`, if `k` has an entry.
pub open spec fn lookup(m: CountSeq, k: Seq<char>) -> Option<nat> {
    let i = find_key(m, k);
    if i >= 0 {
        Some(m[i].1)
    } else {
        None
    }
}

/// `m` after counting one more occurrence of `k`: an existing entry grows by
/// one; a new key is appended with count 1.
pub open spec fn bump(m: CountSeq, k: Seq<char>) -> CountSeq {
    let i = find_key(m, k);
    if i >= 0 {
        m.update(i, (k, m[i].1 + 1))
    } else {
        m.push((k, 1nat))
    }
}

/// The keys of `m` are distinct and every count is positive.
pub open spec fn count_seq_wf(m: CountSeq) -> bool {
    &&& forall|i: int, j: int| 0 <= i < j < m.len() ==> #[trigger] m[i].0 != #[trigger] m[j].0
    &&& forall|i: int| 0 <= i < m.len() ==> #[trigger] m[i].1 >= 1
}

/// The largest count in `m` (0 when empty).
pub open spec fn max_count(m: CountSeq) -> nat
    decreases m.len(),
{
    if m.len() == 0 {
        0
    } else {
        let rest = max_count(m.drop_last());
        if m.last().1 > rest {
            m.last().1
        } else {
            rest
        }
    }
}

pub proof fn lemma_find_key(m: CountSeq, k: Seq<char>)
    ensures
        -1 <= find_key(m, k) < m.len(),
        find_key(m, k) >= 0 ==> m[find_key(m, k)].0 == k,
        find_key(m, k) == -1 ==> forall|i: int| 0 <= i < m.len() ==> #[trigger] m[i].0 != k,
    decreases m.len(),
{
    if m.len() > 0 {
        lemma_find_key(m.drop_last(), k);
        if m.last().0 != k {
            assert forall|i: int| 0 <= i < m.len() && find_key(m, k) == -1 implies #[trigger] m[i].0 != k by {
                if i < m.len() - 1 {
                    assert(m.drop_last()[i] == m[i]);
                }
            }
        }
    }
}

/// In a table with distinct keys, the entry with key `k` is the one `find_key` finds.
pub proof fn lemma_find_key_unique(m: CountSeq, k: Seq<char>, i: int)
    requires
        count_seq_wf(m),
        0 <= i < m.len(),
        m[i].0 == k,
    ensures
        find_key(m, k) == i,
{
    lemma_find_key(m, k);
    let j = find_key(m, k);
    if j != i {
        if j < i {
            assert(m[j].0 != m[i].0);
        } else {
            assert(m[i].0 != m[j].0);
        }
    }
}

pub proof fn lemma_max_count(m: CountSeq, i: int)
    requires
        0 <= i < m.len(),
    ensures
        m[i].1 <= max_count(m),
    decreases m.len(),
{
    if i < m.len() - 1 {
        lemma_max_count(m.drop_last(), i);
    }
}

/// No count exceeds the largest count.
pub proof fn lemma_max_count_ge_count(m: CountSeq, k: Seq<char>)
    ensures
        count_of(m, k) <= max_count(m),
{
    lemma_find_key(m, k);
    if find_key(m, k) >= 0 {
        lemma_max_count(m, find_key(m, k));
    }
}

pub proof fn lemma_max_count_bound(m: CountSeq, b: nat)
    requires
        forall|i: int| 0 <= i < m.len() ==> #[trigger] m[i].1 <= b,
    ensures
        max_count(m) <= b,
    decreases m.len(),
{
    if m.len() > 0 {
        assert forall|i: int| 0 <= i < m.drop_last().len() implies #[trigger] m.drop_last()[i].1 <= b by {
            assert(m.drop_last()[i] == m[i]);
        }
        lemma_max_count_bound(m.drop_last(), b);
        assert(m[m.len() - 1].1 <= b);
    }
}

/// Counting one more occurrence keeps the table well formed, raises the
/// count of that key by one and leaves the others as they were; the largest
/// count grows by at most one.
pub proof fn lemma_bump(m: CountSeq, k: Seq<char>)
    requires
        count_seq_wf(m),
    ensures
        count_seq_wf(bump(m, k)),
        count_of(bump(m, k), k) == count_of(m, k) + 1,
        forall|k2: Seq<char>| k2 != k ==> count_of(bump(m, k), k2) == count_of(m, k2),
        max_count(bump(m, k)) <= max_count(m) + 1,
        count_of(m, k) <= max_count(m),
{
    lemma_find_key(m, k);
    let b = bump(m, k);
    let i = find_key(m, k);
    if i >= 0 {
        lemma_max_count(m, i);
        assert(count_seq_wf(b));
        lemma_find_key_unique(b, k, i);
        assert forall|k2: Seq<char>| k2 != k implies count_of(b, k2) == count_of(m, k2) by {
            lemma_find_key(m, k2);
            let j = find_key(m, k2);
            if j >= 0 {
                lemma_find_key_unique(b, k2, j);
            } else {
                lemma_find_key(b, k2);
                if find_key(b, k2) >= 0 {
                    assert(b[find_key(b, k2)].0 == k2);
                    assert(m[find_key(b, k2)].0 == k2);
                }
            }
        }
        assert forall|t: int| 0 <= t < b.len() implies #[trigger] b[t].1 <= max_count(m) + 1 by {
            lemma_max_count(m, t);
        }
        lemma_max_count_bound(b, max_count(m) + 1);
    } else {
        assert(count_seq_wf(b));
        lemma_find_key_unique(b, k, m.len() as int);
        assert forall|k2: Seq<char>| k2 != k implies count_of(b, k2) == count_of(m, k2) by {
            lemma_find_key(m, k2);
            let j = find_key(m, k2);
            if j >= 0 {
                lemma_find_key_unique(b, k2, j);
            } else {
                lemma_find_key(b, k2);
                if find_key(b, k2) >= 0 {
                    let t = find_key(b, k2);
                    if t < m.len() {
                        assert(m[t].0 == k2);
                    }
                }
            }
        }
        assert forall|t: int| 0 <= t < b.len() implies #[trigger] b[t].1 <= max_count(m) + 1 by {
            if t < m.len() {
                lemma_max_count(m, t);
            }
        }
        lemma_max_count_bound(b, max_count(m) + 1);
    }
}

/// `k` is a key of `m`.
pub open spec fn has_key(m: CountSeq, k: Seq<char>) -> bool {
    exists|j: int| 0 <= j < m.len() && (#[trigger] m[j]).0 == k
}

/// Counting `k` adds `k` to the keys and no other key.
pub proof fn lemma_bump_keys(m: CountSeq, k: Seq<char>)
    ensures
        forall|x: Seq<char>| has_key(bump(m, k), x) <==> (has_key(m, x) || x == k),
        bump(m, k).len() == m.len() + (if has_key(m, k) { 0int } else { 1int }),
{
    lemma_find_key(m, k);
    let b = bump(m, k);
    let i = find_key(m, k);
    if i >= 0 {
        assert(has_key(m, k));
        assert forall|x: Seq<char>| has_key(b, x) <==> (has_key(m, x) || x == k) by {
            if has_key(b, x) {
                let j = choose|j: int| 0 <= j < b.len() && (#[trigger] b[j]).0 == x;
                if j != i {
                    assert(m[j].0 == x);
                }
            }
            if has_key(m, x) {
                let j = choose|j: int| 0 <= j < m.len() && (#[trigger] m[j]).0 == x;
                assert(b[j].0 == x);
            }
            if x == k {
                assert(b[i].0 == x);
            }
        }
    } else {
        assert(!has_key(m, k));
        assert forall|x: Seq<char>| has_key(b, x) <==> (has_key(m, x) || x == k) by {
            if has_key(b, x) {
                let j = choose|j: int| 0 <= j < b.len() && (#[trigger] b[j]).0 == x;
                if j < m.len() {
                    assert(m[j].0 == x);
                }
            }
            if has_key(m, x) {
                let j = choose|j: int| 0 <= j < m.len() && (#[trigger] m[j]).0 == x;
                assert(b[j].0 == x);
            }
            if x == k {
                assert(b[m.len() as int].0 == x);
            }
        }
    }
}

/// The sum of all counts of `m`.
pub open spec fn total_count(m: CountSeq) -> nat
    decreases m.len(),
{
    if m.len() == 0 {
        0
    } else {
        total_count(m.drop_last()) + m.last().1
    }
}

proof fn lemma_total_update(m: CountSeq, i: int, e: (Seq<char>, nat))
    requires
        0 <= i < m.len(),
    ensures
        total_count(m.update(i, e)) + m[i].1 == total_count(m) + e.1,
    decreases m.len(),
{
    if i < m.len() - 1 {
        lemma_total_update(m.drop_last(), i, e);
        assert(m.update(i, e).drop_last() =~= m.drop_last().update(i, e));
    } else {
        assert(m.update(i, e).drop_last() =~= m.drop_last());
    }
}

/// Counting one occurrence adds one to the sum of all counts.
pub proof fn lemma_total_bump(m: CountSeq, k: Seq<char>)
    ensures
        total_count(bump(m, k)) == total_count(m) + 1,
{
    lemma_find_key(m, k);
    let i = find_key(m, k);
    if i >= 0 {
        lemma_total_update(m, i, (k, m[i].1 + 1));
    } else {
        assert(m.push((k, 1nat)).drop_last() =~= m);
    }
}

/// Occurrence counts of string keys, in first-counted order.
pub struct Counter {
    entries: Vec<(String, usize)>,
}

impl View for Counter {
    type V = CountSeq;

    closed spec fn view(&self) -> CountSeq {
        Seq::new(
            self.entries@.len(),
            |i: int| (self.entries@[i].0@, self.entries@[i].1 as nat),
        )
    }
}

impl Counter {
    /// The table is well formed: distinct keys, positive counts.
    pub open spec fn wf(&self) -> bool {
        count_seq_wf(self@)
    }

    /// An empty table.
    pub fn new() -> (c: Counter)
        ensures
            c@ == Seq::<(Seq<char>, nat)>::empty(),
            c.wf(),
    {
        let c = Counter { entries: Vec::new() };
        assert(c@ =~= Seq::<(Seq<char>, nat)>::empty());
        c
    }

    /// Number of distinct keys.
    pub fn len(&self) -> (n: usize)
        ensures
            n == self@.len(),
    {
        self.entries.len()
    }

    /// The key and count of entry `i`.
    pub fn entry(&self, i: usize) -> (e: (&String, usize))
        requires
            i < self@.len(),
        ensures
            e.0@ == self@[i as int].0,
            e.1 == self@[i as int].1,
    {
        (&self.entries[i].0, self.entries[i].1)
    }

    /// Index of the entry with key `k`, searching from the end.
    fn find(&self, k: &String) -> (r: Option<usize>)
        ensures
            r matches Some(i) ==> find_key(self@, k@) == i,
            r is None ==> find_key(self@, k@) == -1,
    {
        let mut i = self.entries.len();
        assert(self@.take(i as int) =~= self@);
        while i > 0
            invariant
                i <= self@.len(),
                find_key(self@, k@) == find_key(self@.take(i as int), k@),
            decreases i,
        {
            assert(self@.take(i as int).drop_last() =~= self@.take(i - 1));
            if self.entries[i - 1].0 == *k {
                return Some(i - 1);
            }
            i = i - 1;
        }
        None
    }

    /// The count recorded for `k` (`None` if `k` was never counted).
    pub fn get(&self, k: &str) -> (r: Option<usize>)
        ensures
            r matches Some(n) ==> lookup(self@, k@) == Some(n as nat),
            r is None ==> lookup(self@, k@) is None,
    {
        let key = crate::text::owned(k);
        match self.find(&key) {
            Some(i) => {
                proof {
                    lemma_find_key(self@, k@);
                }
                Some(self.entries[i].1)
            },
            None => None,
        }
    }

    /// Counts one more occurrence of `k`.
    pub fn increment(&mut self, k: String)
        requires
            old(self).wf(),
            count_of(old(self)@, k@) < usize::MAX,
        ensures
            final(self).wf(),
            final(self)@ == bump(old(self)@, k@),
    {
        proof {
            lemma_find_key(self@, k@);
            lemma_bump(self@, k@);
        }
        match self.find(&k) {
            Some(i) => {
                let n = self.entries[i].1;
                let ghost kv = k@;
                self.entries.set(i, (k, n + 1));
                assert(self@ =~= bump(old(self)@, kv));
            },
            None => {
                let ghost kv = k@;
                self.entries.push((k, 1));
                assert(self@ =~= bump(old(self)@, kv));
            },
        }
    }
}

} // verus!
