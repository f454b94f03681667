//! The occurrence-frequency histogram: how many distinct k-mers of a
//! finished table share each occurrence count. Its values sum to the
//! table's number of distinct k-mers, and weighting each occurrence value
//! by its frequency recovers the table's total count.

use vstd::prelude::*;

use crate::table::{pairs_total, KmerTable};

verus! {

/// The frequency recorded for the occurrence value `occ`: the sum of the
/// frequencies of the entries with that key (with distinct keys, the one
/// entry's frequency, or zero).
pub open spec fn hist_count(h: Seq<(u64, u64)>, occ: u64) -> nat
    decreases h.len(),
{
    if h.len() == 0 {
        0
    } else {
        hist_count(h.drop_last(), occ) + if h.last().0 == occ {
            h.last().1 as nat
        } else {
            0nat
        }
    }
}

/// The sum of all frequencies: how many distinct k-mers the histogram
/// accounts for.
pub open spec fn hist_sum(h: Seq<(u64, u64)>) -> nat
    decreases h.len(),
{
    if h.len() == 0 {
        0
    } else {
        hist_sum(h.drop_last()) + h.last().1 as nat
    }
}

/// The sum of occurrence times frequency: how many counted windows the
/// histogram accounts for.
pub open spec fn hist_weighted(h: Seq<(u64, u64)>) -> int
    decreases h.len(),
{
    if h.len() == 0 {
        0
    } else {
        hist_weighted(h.drop_last()) + h.last().0 * h.last().1
    }
}

/// No two entries share an occurrence value.
pub open spec fn distinct_occs(h: Seq<(u64, u64)>) -> bool {
    forall|i: int, j: int| 0 <= i < j < h.len() ==> (#[trigger] h[i]).0 != (#[trigger] h[j]).0
}

/// The occurrence-frequency histogram: parallel vectors of distinct
/// occurrence values and their positive frequencies.
pub struct Histogram {
    pub occs: Vec<u64>,
    pub freqs: Vec<u64>,
}

impl View for Histogram {
    type V = Seq<(u64, u64)>;

    open spec fn view(&self) -> Seq<(u64, u64)> {
        Seq::new(self.occs@.len(), |i: int| (self.occs@[i], self.freqs@[i]))
    }
}

impl Histogram {
    /// The histogram's invariant: distinct positive occurrence values,
    /// each with a positive frequency.
    pub open spec fn wf(self) -> bool {
        &&& self.occs@.len() == self.freqs@.len()
        &&& distinct_occs(self@)
        &&& forall|i: int| 0 <= i < self@.len() ==> (#[trigger] self@[i]).0 >= 1
        &&& forall|i: int| 0 <= i < self@.len() ==> (#[trigger] self@[i]).1 >= 1
    }
}

/// Appending an entry adds its frequency to its occurrence value and to
/// both sums.
proof fn lemma_hist_push(h: Seq<(u64, u64)>, p: (u64, u64))
    ensures
        hist_sum(h.push(p)) == hist_sum(h) + p.1,
        hist_weighted(h.push(p)) == hist_weighted(h) + p.0 * p.1,
        forall|o: u64|
            hist_count(h.push(p), o) == hist_count(h, o) + (if p.0 == o {
                p.1 as int
            } else {
                0int
            }),
{
    assert(h.push(p).drop_last() =~= h);
    assert(h.push(p).last() == p);
}

/// Replacing the frequency of entry `j` shifts that occurrence value's
/// frequency and both sums by the difference, and touches no other value.
proof fn lemma_hist_update(h: Seq<(u64, u64)>, j: int, c: u64)
    requires
        0 <= j < h.len(),
    ensures
        hist_sum(h.update(j, (h[j].0, c))) == hist_sum(h) - h[j].1 + c,
        hist_weighted(h.update(j, (h[j].0, c))) == hist_weighted(h) + h[j].0 * c - h[j].0 * h[j].1,
        forall|o: u64|
            hist_count(h.update(j, (h[j].0, c)), o) == hist_count(h, o) + (if h[j].0 == o {
                c - h[j].1
            } else {
                0int
            }),
    decreases h.len(),
{
    let h2 = h.update(j, (h[j].0, c));
    if j == h.len() - 1 {
        assert(h2.drop_last() =~= h.drop_last());
        assert(h2.last() == (h[j].0, c));
        assert forall|o: u64|
            hist_count(h2, o) == hist_count(h, o) + (if h[j].0 == o {
                c - h[j].1
            } else {
                0int
            }) by {
            assert(hist_count(h2, o) == hist_count(h2.drop_last(), o) + if h2.last().0 == o {
                h2.last().1 as nat
            } else {
                0nat
            });
            assert(hist_count(h, o) == hist_count(h.drop_last(), o) + if h.last().0 == o {
                h.last().1 as nat
            } else {
                0nat
            });
        }
    } else {
        let hd = h.drop_last();
        assert(hd[j] == h[j]);
        lemma_hist_update(hd, j, c);
        assert(h2.drop_last() =~= hd.update(j, (hd[j].0, c)));
        assert(h2.last() == h.last());
        assert forall|o: u64|
            hist_count(h2, o) == hist_count(h, o) + (if h[j].0 == o {
                c - h[j].1
            } else {
                0int
            }) by {
            assert(hist_count(hd.update(j, (hd[j].0, c)), o) == hist_count(hd, o) + (if hd[j].0
                == o {
                c - hd[j].1
            } else {
                0int
            }));
            assert(hist_count(h2, o) == hist_count(h2.drop_last(), o) + if h2.last().0 == o {
                h2.last().1 as nat
            } else {
                0nat
            });
            assert(hist_count(h, o) == hist_count(hd, o) + if h.last().0 == o {
                h.last().1 as nat
            } else {
                0nat
            });
        }
    }
}

/// Each single frequency is at most the sum of all frequencies.
proof fn lemma_freq_le_sum(h: Seq<(u64, u64)>, j: int)
    requires
        0 <= j < h.len(),
    ensures
        h[j].1 <= hist_sum(h),
    decreases h.len(),
{
    if j < h.len() - 1 {
        lemma_freq_le_sum(h.drop_last(), j);
        assert(h.drop_last()[j] == h[j]);
    }
}

/// An occurrence value held by no entry has frequency zero.
proof fn lemma_hist_absent(h: Seq<(u64, u64)>, o: u64)
    requires
        forall|i: int| 0 <= i < h.len() ==> (#[trigger] h[i]).0 != o,
    ensures
        hist_count(h, o) == 0,
    decreases h.len(),
{
    if h.len() > 0 {
        lemma_hist_absent(h.drop_last(), o);
    }
}

/// With distinct occurrence values, the frequency stored beside entry `j`
/// is exactly what the whole histogram records for that value.
proof fn lemma_hist_lookup(h: Seq<(u64, u64)>, j: int)
    requires
        distinct_occs(h),
        0 <= j < h.len(),
    ensures
        hist_count(h, h[j].0) == h[j].1,
    decreases h.len(),
{
    if j == h.len() - 1 {
        assert forall|i: int| 0 <= i < h.drop_last().len() implies (#[trigger] h.drop_last()[i]).0
            != h[j].0 by {
            assert(h.drop_last()[i] == h[i]);
        }
        lemma_hist_absent(h.drop_last(), h[j].0);
    } else {
        assert(distinct_occs(h.drop_last())) by {
            assert forall|a: int, b: int|
                0 <= a < b < h.drop_last().len() implies (#[trigger] h.drop_last()[a]).0 != (
            #[trigger] h.drop_last()[b]).0 by {
                assert(h.drop_last()[a] == h[a]);
                assert(h.drop_last()[b] == h[b]);
            }
        }
        lemma_hist_lookup(h.drop_last(), j);
        assert(h.drop_last()[j] == h[j]);
        assert(h.last().0 != h[j].0);
    }
}

impl Histogram {
    /// An empty histogram.
    pub fn empty() -> (h: Histogram)
        ensures
            h.wf(),
            h@.len() == 0,
            hist_sum(h@) == 0,
            hist_weighted(h@) == 0,
            forall|o: u64| hist_count(h@, o) == 0,
    {
        let h = Histogram { occs: Vec::new(), freqs: Vec::new() };
        assert(h@ =~= Seq::<(u64, u64)>::empty());
        h
    }

    /// Records one more distinct k-mer with occurrence count `occ`:
    /// increments that value's frequency, or inserts it with frequency one.
    #[verifier::loop_isolation(false)]
    fn bump(&mut self, occ: u64)
        requires
            old(self).wf(),
            occ >= 1,
            hist_sum(old(self)@) < u64::MAX,
        ensures
            final(self).wf(),
            hist_sum(final(self)@) == hist_sum(old(self)@) + 1,
            hist_weighted(final(self)@) == hist_weighted(old(self)@) + occ,
            hist_count(final(self)@, occ) == hist_count(old(self)@, occ) + 1,
            forall|o: u64| o != occ ==> hist_count(final(self)@, o) == hist_count(old(self)@, o),
    {
        let ghost h0 = self@;
        let n = self.occs.len();
        let mut j: usize = 0;
        while j < n
            invariant
                self == old(self),
                0 <= j <= n,
                forall|m: int| 0 <= m < j ==> (#[trigger] self@[m]).0 != occ,
            decreases n - j,
        {
            if self.occs[j] == occ {
                let f = self.freqs[j];
                proof {
                    lemma_freq_le_sum(h0, j as int);
                    lemma_hist_update(h0, j as int, (f + 1) as u64);
                    assert(f < u64::MAX);
                    assert(occ * ((f + 1) as u64) == occ * f + occ) by (nonlinear_arith)
                        requires
                            f < u64::MAX,
                    ;
                }
                self.freqs[j] = f + 1;
                proof {
                    assert(self@ =~= h0.update(j as int, (h0[j as int].0, (f + 1) as u64)));
                    lemma_hist_lookup(h0, j as int);
                }
                return ;
            }
            j = j + 1;
        }
        proof {
            lemma_hist_absent(h0, occ);
            lemma_hist_push(h0, (occ, 1u64));
        }
        self.occs.push(occ);
        self.freqs.push(1);
        proof {
            assert(self@ =~= h0.push((occ, 1u64)));
        }
    }

    /// The frequency recorded for the occurrence value `occ`, zero if no
    /// distinct k-mer has that count.
    #[verifier::loop_isolation(false)]
    pub fn get(&self, occ: u64) -> (f: u64)
        requires
            self.wf(),
        ensures
            f == hist_count(self@, occ),
    {
        let n = self.occs.len();
        let mut j: usize = 0;
        while j < n
            invariant
                0 <= j <= n,
                forall|m: int| 0 <= m < j ==> (#[trigger] self@[m]).0 != occ,
            decreases n - j,
        {
            if self.occs[j] == occ {
                proof {
                    lemma_hist_lookup(self@, j as int);
                }
                return self.freqs[j];
            }
            j = j + 1;
        }
        proof {
            lemma_hist_absent(self@, occ);
        }
        0
    }
}

/// Among the first `n` table entries, how many have occurrence count `occ`.
pub open spec fn entries_with_count(tv: Seq<(Seq<u8>, u64)>, occ: u64, n: int) -> nat
    decreases n,
{
    if n <= 0 {
        0
    } else {
        entries_with_count(tv, occ, n - 1) + if tv[n - 1].1 == occ {
            1nat
        } else {
            0nat
        }
    }
}

/// The sum of the first `n` table counts.
pub open spec fn sum_counts_upto(tv: Seq<(Seq<u8>, u64)>, n: int) -> int
    decreases n,
{
    if n <= 0 {
        0
    } else {
        sum_counts_upto(tv, n - 1) + tv[n - 1].1
    }
}

/// A prefix sum of counts does not change when the last entry is dropped.
proof fn lemma_sum_prefix_drop(tv: Seq<(Seq<u8>, u64)>, n: int)
    requires
        0 <= n < tv.len(),
    ensures
        sum_counts_upto(tv, n) == sum_counts_upto(tv.drop_last(), n),
    decreases n,
{
    if n > 0 {
        lemma_sum_prefix_drop(tv, n - 1);
        assert(tv.drop_last()[n - 1] == tv[n - 1]);
    }
}

/// Summing every count entry by entry gives the table's total.
proof fn lemma_sum_counts_total(tv: Seq<(Seq<u8>, u64)>)
    ensures
        sum_counts_upto(tv, tv.len() as int) == pairs_total(tv),
    decreases tv.len(),
{
    if tv.len() > 0 {
        lemma_sum_counts_total(tv.drop_last());
        lemma_sum_prefix_drop(tv, tv.len() - 1);
    }
}

/// Builds the occurrence-frequency histogram of a finished table: for
/// every occurrence value, how many distinct k-mers have exactly that
/// count. The frequencies sum to the table's number of distinct k-mers,
/// and the occurrence-weighted frequencies sum to the table's total count.
#[verifier::loop_isolation(false)]
pub fn freq_histogram(t: &KmerTable) -> (h: Histogram)
    requires
        t.wf(),
    ensures
        h.wf(),
        forall|o: u64| hist_count(h@, o) == entries_with_count(t@, o, t@.len() as int),
        hist_sum(h@) == t.distinct(),
        hist_weighted(h@) == t.total,
{
    let mut h = Histogram::empty();
    let n = t.counts.len();
    assert(n == t@.len());
    let mut i: usize = 0;
    while i < n
        invariant
            h.wf(),
            0 <= i <= n,
            hist_sum(h@) == i,
            hist_weighted(h@) == sum_counts_upto(t@, i as int),
            forall|o: u64| hist_count(h@, o) == entries_with_count(t@, o, i as int),
        decreases n - i,
    {
        let c = t.counts[i];
        assert(c == t@[i as int].1);
        assert(c >= 1);
        let ghost hprev = h@;
        h.bump(c);
        proof {
            assert forall|o: u64| hist_count(h@, o) == entries_with_count(t@, o, i as int + 1) by {
                assert(entries_with_count(t@, o, i as int + 1) == entries_with_count(
                    t@,
                    o,
                    i as int,
                ) + if t@[i as int].1 == o {
                    1nat
                } else {
                    0nat
                });
                if o != c {
                    assert(hist_count(h@, o) == hist_count(hprev, o));
                }
            }
        }
        i = i + 1;
    }
    proof {
        lemma_sum_counts_total(t@);
    }
    h
}

} // verus!
