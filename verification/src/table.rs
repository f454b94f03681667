//! The k-mer table: a mapping from k-mer (a byte string of length `k`) to
//! its occurrence count, stored as parallel vectors of distinct keys and
//! positive counts, together with the running sum of all counts.

use vstd::prelude::*;

verus! {

/// The mathematical content of a table: the sequence of (key, count) pairs.
pub open spec fn pair_views(keys: Seq<Vec<u8>>, counts: Seq<u64>) -> Seq<(Seq<u8>, u64)> {
    Seq::new(keys.len(), |i: int| (keys[i]@, counts[i]))
}

/// How often `w` is counted by the pairs: the sum of the counts of the
/// entries whose key is `w` (with distinct keys, the count of the one
/// entry for `w`, or zero).
pub open spec fn pairs_count(s: Seq<(Seq<u8>, u64)>, w: Seq<u8>) -> nat
    decreases s.len(),
{
    if s.len() == 0 {
        0
    } else {
        pairs_count(s.drop_last(), w) + if s.last().0 == w {
            s.last().1 as nat
        } else {
            0nat
        }
    }
}

/// The sum of all counts in the pairs.
pub open spec fn pairs_total(s: Seq<(Seq<u8>, u64)>) -> nat
    decreases s.len(),
{
    if s.len() == 0 {
        0
    } else {
        pairs_total(s.drop_last()) + s.last().1 as nat
    }
}

/// No two entries share a key.
pub open spec fn distinct_keys(s: Seq<(Seq<u8>, u64)>) -> bool {
    forall|i: int, j: int| 0 <= i < j < s.len() ==> (#[trigger] s[i]).0 != (#[trigger] s[j]).0
}

/// A mapping from k-mer to occurrence count. Keys are distinct byte
/// strings, all of length `k`; every stored count is at least one; `total`
/// is the sum of all counts.
pub struct KmerTable {
    pub k: usize,
    pub keys: Vec<Vec<u8>>,
    pub counts: Vec<u64>,
    pub total: u64,
}

impl View for KmerTable {
    type V = Seq<(Seq<u8>, u64)>;

    open spec fn view(&self) -> Seq<(Seq<u8>, u64)> {
        pair_views(self.keys@, self.counts@)
    }
}

impl KmerTable {
    /// The table's invariant.
    pub open spec fn wf(self) -> bool {
        &&& self.keys@.len() == self.counts@.len()
        &&& distinct_keys(self@)
        &&& forall|i: int| 0 <= i < self@.len() ==> (#[trigger] self@[i]).0.len() == self.k
        &&& forall|i: int| 0 <= i < self@.len() ==> (#[trigger] self@[i]).1 >= 1
        &&& self.total == pairs_total(self@)
    }

    /// The count recorded for the k-mer `w` (zero if absent).
    pub open spec fn count_of(self, w: Seq<u8>) -> nat {
        pairs_count(self@, w)
    }

    /// The number of distinct k-mers in the table.
    pub open spec fn distinct(self) -> nat {
        self@.len()
    }
}

/// Appending an entry adds its count to that entry's key and to the total.
proof fn lemma_pairs_push(s: Seq<(Seq<u8>, u64)>, p: (Seq<u8>, u64))
    ensures
        pairs_total(s.push(p)) == pairs_total(s) + p.1,
        forall|v: Seq<u8>| p.0 == v ==> pairs_count(s.push(p), v) == pairs_count(s, v) + p.1,
        forall|v: Seq<u8>| p.0 != v ==> pairs_count(s.push(p), v) == pairs_count(s, v),
{
    assert(s.push(p).drop_last() =~= s);
    assert(s.push(p).last() == p);
}

/// Replacing the count of entry `j` shifts that key's count and the total
/// by the difference, and touches no other key.
proof fn lemma_pairs_update(s: Seq<(Seq<u8>, u64)>, j: int, c: u64)
    requires
        0 <= j < s.len(),
    ensures
        pairs_total(s.update(j, (s[j].0, c))) == pairs_total(s) - s[j].1 + c,
        forall|v: Seq<u8>|
            pairs_count(s.update(j, (s[j].0, c)), v) == pairs_count(s, v) + (if s[j].0 == v {
                c - s[j].1
            } else {
                0int
            }),
    decreases s.len(),
{
    let s2 = s.update(j, (s[j].0, c));
    if j == s.len() - 1 {
        assert(s2.drop_last() =~= s.drop_last());
        assert(s2.last() == (s[j].0, c));
        assert forall|v: Seq<u8>|
            pairs_count(s2, v) == pairs_count(s, v) + (if s[j].0 == v {
                c - s[j].1
            } else {
                0int
            }) by {
            assert(pairs_count(s2, v) == pairs_count(s2.drop_last(), v) + if s2.last().0 == v {
                s2.last().1 as nat
            } else {
                0nat
            });
            assert(pairs_count(s, v) == pairs_count(s.drop_last(), v) + if s.last().0 == v {
                s.last().1 as nat
            } else {
                0nat
            });
        }
    } else {
        let sd = s.drop_last();
        assert(sd[j] == s[j]);
        lemma_pairs_update(sd, j, c);
        assert(s2.drop_last() =~= sd.update(j, (sd[j].0, c)));
        assert(s2.last() == s.last());
        assert forall|v: Seq<u8>|
            pairs_count(s2, v) == pairs_count(s, v) + (if s[j].0 == v {
                c - s[j].1
            } else {
                0int
            }) by {
            assert(pairs_count(sd.update(j, (sd[j].0, c)), v) == pairs_count(sd, v) + (if sd[j].0
                == v {
                c - sd[j].1
            } else {
                0int
            }));
            assert(pairs_count(s2, v) == pairs_count(s2.drop_last(), v) + if s2.last().0 == v {
                s2.last().1 as nat
            } else {
                0nat
            });
            assert(pairs_count(s, v) == pairs_count(sd, v) + if s.last().0 == v {
                s.last().1 as nat
            } else {
                0nat
            });
        }
    }
}

/// Each single count is at most the sum of all counts.
proof fn lemma_entry_le_total(s: Seq<(Seq<u8>, u64)>, j: int)
    requires
        0 <= j < s.len(),
    ensures
        s[j].1 <= pairs_total(s),
    decreases s.len(),
{
    if j < s.len() - 1 {
        lemma_entry_le_total(s.drop_last(), j);
        assert(s.drop_last()[j] == s[j]);
    }
}

/// A key that occurs in no entry is counted zero times.
proof fn lemma_pairs_absent(s: Seq<(Seq<u8>, u64)>, v: Seq<u8>)
    requires
        forall|i: int| 0 <= i < s.len() ==> (#[trigger] s[i]).0 != v,
    ensures
        pairs_count(s, v) == 0,
    decreases s.len(),
{
    if s.len() > 0 {
        lemma_pairs_absent(s.drop_last(), v);
    }
}

/// With distinct keys, the count recorded beside key `j` is exactly what
/// the whole table counts for that key.
proof fn lemma_pairs_lookup(s: Seq<(Seq<u8>, u64)>, j: int)
    requires
        distinct_keys(s),
        0 <= j < s.len(),
    ensures
        pairs_count(s, s[j].0) == s[j].1,
    decreases s.len(),
{
    if j == s.len() - 1 {
        assert forall|i: int| 0 <= i < s.drop_last().len() implies (#[trigger] s.drop_last()[i]).0
            != s[j].0 by {
            assert(s.drop_last()[i] == s[i]);
        }
        lemma_pairs_absent(s.drop_last(), s[j].0);
    } else {
        assert(distinct_keys(s.drop_last())) by {
            assert forall|a: int, b: int|
                0 <= a < b < s.drop_last().len() implies (#[trigger] s.drop_last()[a]).0 != (
            #[trigger] s.drop_last()[b]).0 by {
                assert(s.drop_last()[a] == s[a]);
                assert(s.drop_last()[b] == s[b]);
            }
        }
        lemma_pairs_lookup(s.drop_last(), j);
        assert(s.drop_last()[j] == s[j]);
        assert(s.last().0 != s[j].0);
    }
}

/// A well-formed table lists no (key, count) pair twice.
proof fn lemma_table_no_duplicates(t: KmerTable)
    requires
        t.wf(),
    ensures
        t@.no_duplicates(),
{
    assert forall|i: int, j: int|
        0 <= i < t@.len() && 0 <= j < t@.len() && i != j implies t@[i] != t@[j] by {
        if i < j {
            assert(t@[i].0 != t@[j].0);
        } else {
            assert(t@[j].0 != t@[i].0);
        }
    }
}

/// Law: a well-formed table holds the pair `p` exactly when it records
/// the positive count `p.1` for the k-mer `p.0` — entries are determined
/// by the counting function, up to order.
pub proof fn lemma_table_contains_pair(t: KmerTable, p: (Seq<u8>, u64))
    requires
        t.wf(),
    ensures
        t@.contains(p) <==> (p.1 >= 1 && t.count_of(p.0) == p.1),
{
    if t@.contains(p) {
        let j = choose|j: int| 0 <= j < t@.len() && t@[j] == p;
        lemma_pairs_lookup(t@, j);
    }
    if p.1 >= 1 && t.count_of(p.0) == p.1 {
        if forall|i: int| 0 <= i < t@.len() ==> (#[trigger] t@[i]).0 != p.0 {
            lemma_pairs_absent(t@, p.0);
        } else {
            let i = choose|i: int| 0 <= i < t@.len() && (#[trigger] t@[i]).0 == p.0;
            lemma_pairs_lookup(t@, i);
            assert(t@[i] == p);
        }
    }
}

/// In a well-formed table each pair appears in the multiset exactly once
/// or not at all.
proof fn lemma_table_multiset_count(t: KmerTable, p: (Seq<u8>, u64))
    requires
        t.wf(),
    ensures
        t@.to_multiset().count(p) == if t@.contains(p) {
            1nat
        } else {
            0nat
        },
{
    broadcast use vstd::seq_lib::group_to_multiset_ensures;

    lemma_table_no_duplicates(t);
    t@.lemma_multiset_has_no_duplicates();
    if t@.contains(p) {
        assert(t@.to_multiset().count(p) > 0);
        assert(t@.to_multiset().contains(p));
    }
}

/// Law: two well-formed tables that record the same count for every
/// k-mer hold the same multiset of (k-mer, count) pairs — entry order is
/// the only freedom left.
pub proof fn lemma_same_counts_same_pairs(t1: KmerTable, t2: KmerTable)
    requires
        t1.wf(),
        t2.wf(),
        forall|v: Seq<u8>| t1.count_of(v) == t2.count_of(v),
    ensures
        t1@.to_multiset() == t2@.to_multiset(),
{
    assert forall|p: (Seq<u8>, u64)|
        t1@.to_multiset().count(p) == t2@.to_multiset().count(p) by {
        lemma_table_contains_pair(t1, p);
        lemma_table_contains_pair(t2, p);
        lemma_table_multiset_count(t1, p);
        lemma_table_multiset_count(t2, p);
    }
    assert(t1@.to_multiset() =~= t2@.to_multiset());
}

/// Decides whether two byte strings are equal.
pub fn bytes_eq(a: &Vec<u8>, b: &Vec<u8>) -> (r: bool)
    ensures
        r == (a@ == b@),
{
    if a.len() != b.len() {
        return false;
    }
    let mut i: usize = 0;
    while i < a.len()
        invariant
            0 <= i <= a@.len(),
            a@.len() == b@.len(),
            forall|j: int| 0 <= j < i ==> a@[j] == b@[j],
        decreases a@.len() - i,
    {
        if a[i] != b[i] {
            return false;
        }
        i = i + 1;
    }
    assert(a@ =~= b@);
    true
}

impl KmerTable {
    /// An empty table for k-mers of length `k`.
    pub fn empty(k: usize) -> (t: KmerTable)
        ensures
            t.wf(),
            t.k == k,
            t@.len() == 0,
            t.total == 0,
            forall|v: Seq<u8>| t.count_of(v) == 0,
    {
        let t = KmerTable { k, keys: Vec::new(), counts: Vec::new(), total: 0 };
        assert(t@ =~= Seq::<(Seq<u8>, u64)>::empty());
        t
    }

    /// Counts one more occurrence of the k-mer `w`: increments its entry,
    /// or inserts it with count one.
    #[verifier::loop_isolation(false)]
    pub fn bump(&mut self, w: Vec<u8>)
        requires
            old(self).wf(),
            w@.len() == old(self).k,
            old(self).total < u64::MAX,
        ensures
            final(self).wf(),
            final(self).k == old(self).k,
            final(self).total == old(self).total + 1,
            final(self).count_of(w@) == old(self).count_of(w@) + 1,
            forall|v: Seq<u8>| v != w@ ==> final(self).count_of(v) == old(self).count_of(v),
    {
        let ghost s0 = self@;
        let n = self.keys.len();
        let mut j: usize = 0;
        while j < n
            invariant
                self == old(self),
                n == self.keys@.len(),
                0 <= j <= n,
                forall|m: int| 0 <= m < j ==> (#[trigger] self@[m]).0 != w@,
            decreases n - j,
        {
            if bytes_eq(&self.keys[j], &w) {
                assert(self@[j as int].0 == w@);
                let c = self.counts[j];
                proof {
                    lemma_entry_le_total(s0, j as int);
                    lemma_pairs_update(s0, j as int, (c + 1) as u64);
                }
                self.counts[j] = c + 1;
                self.total = self.total + 1;
                proof {
                    assert(self@ =~= s0.update(j as int, (s0[j as int].0, (c + 1) as u64)));
                    lemma_pairs_lookup(s0, j as int);
                }
                return ;
            }
            j = j + 1;
        }
        proof {
            lemma_pairs_absent(s0, w@);
            lemma_pairs_push(s0, (w@, 1u64));
        }
        self.keys.push(w);
        self.counts.push(1);
        self.total = self.total + 1;
        proof {
            assert(self@ =~= s0.push((w@, 1u64)));
        }
    }

    /// The count recorded for `w`, zero if `w` is not in the table.
    #[verifier::loop_isolation(false)]
    pub fn get(&self, w: &Vec<u8>) -> (c: u64)
        requires
            self.wf(),
        ensures
            c == self.count_of(w@),
    {
        let n = self.keys.len();
        let mut j: usize = 0;
        while j < n
            invariant
                self.wf(),
                n == self.keys@.len(),
                0 <= j <= n,
                forall|m: int| 0 <= m < j ==> (#[trigger] self@[m]).0 != w@,
            decreases n - j,
        {
            if bytes_eq(&self.keys[j], &w) {
                proof {
                    lemma_pairs_lookup(self@, j as int);
                }
                return self.counts[j];
            }
            j = j + 1;
        }
        proof {
            lemma_pairs_absent(self@, w@);
        }
        0
    }

    /// The number of distinct k-mers in the table.
    pub fn distinct_count(&self) -> (n: usize)
        requires
            self.wf(),
        ensures
            n == self.distinct(),
    {
        self.keys.len()
    }
}

} // verus!
