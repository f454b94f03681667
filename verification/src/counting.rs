//! Sliding-window k-mer extraction and counting. A record of length `L`
//! yields one window per offset `0 .. L - k`, provided `L` is at least
//! `k + 1` (the length guard: shorter records are skipped, not an error).
//! In valid-only mode a window containing a byte outside A/T/G/C (either
//! case) is discarded rather than counted.

use vstd::prelude::*;

use crate::bases::{all_acgt, seq_all_acgt};
use crate::table::KmerTable;

verus! {

/// How many windows of length `k` the record yields: zero under the
/// length guard (`s.len() <= k`), else one per starting offset.
pub open spec fn window_count(s: Seq<u8>, k: nat) -> nat {
    if s.len() <= k {
        0
    } else {
        (s.len() - k + 1) as nat
    }
}

/// The window of length `k` starting at offset `c`.
pub open spec fn window_at(s: Seq<u8>, k: nat, c: int) -> Seq<u8> {
    s.subrange(c, c + k)
}

/// Whether a window is counted: always, unless valid-only mode is on and
/// the window holds a byte outside A/T/G/C.
pub open spec fn keep_window(w: Seq<u8>, valid_only: bool) -> bool {
    !valid_only || seq_all_acgt(w)
}

/// Among the record's first `c` windows, how many are kept and equal `w`.
pub open spec fn occ_upto_windows(s: Seq<u8>, k: nat, valid_only: bool, c: int, w: Seq<u8>) -> nat
    decreases c,
{
    if c <= 0 {
        0
    } else {
        occ_upto_windows(s, k, valid_only, c - 1, w) + if keep_window(
            window_at(s, k, c - 1),
            valid_only,
        ) && window_at(s, k, c - 1) == w {
            1nat
        } else {
            0nat
        }
    }
}

/// Among the record's first `c` windows, how many are kept.
pub open spec fn kept_upto_windows(s: Seq<u8>, k: nat, valid_only: bool, c: int) -> nat
    decreases c,
{
    if c <= 0 {
        0
    } else {
        kept_upto_windows(s, k, valid_only, c - 1) + if keep_window(
            window_at(s, k, c - 1),
            valid_only,
        ) {
            1nat
        } else {
            0nat
        }
    }
}

/// How many kept windows of the record equal `w`.
pub open spec fn record_occ(s: Seq<u8>, k: nat, valid_only: bool, w: Seq<u8>) -> nat {
    occ_upto_windows(s, k, valid_only, window_count(s, k) as int, w)
}

/// How many windows of the record are kept (counted) in all.
pub open spec fn record_windows(s: Seq<u8>, k: nat, valid_only: bool) -> nat {
    kept_upto_windows(s, k, valid_only, window_count(s, k) as int)
}

/// The byte strings of a vector of records.
pub open spec fn seq_views(rs: Seq<Vec<u8>>) -> Seq<Seq<u8>> {
    Seq::new(rs.len(), |i: int| rs[i]@)
}

/// How many kept windows of the first `n` records equal `w`.
pub open spec fn occ_upto_records(
    rs: Seq<Seq<u8>>,
    k: nat,
    valid_only: bool,
    n: int,
    w: Seq<u8>,
) -> nat
    decreases n,
{
    if n <= 0 {
        0
    } else {
        occ_upto_records(rs, k, valid_only, n - 1, w) + record_occ(rs[n - 1], k, valid_only, w)
    }
}

/// How many kept windows of all records equal `w`: the number of times the
/// k-mer `w` is counted over the whole input.
pub open spec fn occurrences(rs: Seq<Seq<u8>>, k: nat, valid_only: bool, w: Seq<u8>) -> nat {
    occ_upto_records(rs, k, valid_only, rs.len() as int, w)
}

/// How many windows of the first `n` records are kept.
pub open spec fn windows_upto_records(rs: Seq<Seq<u8>>, k: nat, valid_only: bool, n: int) -> nat
    decreases n,
{
    if n <= 0 {
        0
    } else {
        windows_upto_records(rs, k, valid_only, n - 1) + record_windows(rs[n - 1], k, valid_only)
    }
}

/// The number of windows counted over the whole input, after the length
/// guard and, in valid-only mode, the non-ACGT exclusions.
pub open spec fn total_windows(rs: Seq<Seq<u8>>, k: nat, valid_only: bool) -> nat {
    windows_upto_records(rs, k, valid_only, rs.len() as int)
}

/// Counting kept windows over a longer prefix never gives fewer.
proof fn lemma_kept_upto_mono(s: Seq<u8>, k: nat, valid_only: bool, c1: int, c2: int)
    requires
        c1 <= c2,
    ensures
        kept_upto_windows(s, k, valid_only, c1) <= kept_upto_windows(s, k, valid_only, c2),
    decreases c2 - c1,
{
    if c1 < c2 {
        lemma_kept_upto_mono(s, k, valid_only, c1, c2 - 1);
    }
}

/// Counting kept windows over more records never gives fewer.
proof fn lemma_windows_upto_mono(rs: Seq<Seq<u8>>, k: nat, valid_only: bool, n1: int, n2: int)
    requires
        n1 <= n2,
    ensures
        windows_upto_records(rs, k, valid_only, n1) <= windows_upto_records(rs, k, valid_only, n2),
    decreases n2 - n1,
{
    if n1 < n2 {
        lemma_windows_upto_mono(rs, k, valid_only, n1, n2 - 1);
    }
}

/// Law: the finished table is a function of the records, the window
/// length and the filtering flag alone. Two tables whose counts both
/// agree with the same input agree on the count of every k-mer and hold
/// the same multiset of (k-mer, count) pairs; only entry order may
/// differ between runs.
pub proof fn lemma_counting_deterministic(
    t1: KmerTable,
    t2: KmerTable,
    rs: Seq<Seq<u8>>,
    k: nat,
    valid_only: bool,
)
    requires
        t1.wf(),
        t2.wf(),
        forall|v: Seq<u8>| t1.count_of(v) == occurrences(rs, k, valid_only, v),
        forall|v: Seq<u8>| t2.count_of(v) == occurrences(rs, k, valid_only, v),
    ensures
        forall|v: Seq<u8>| t1.count_of(v) == t2.count_of(v),
        t1@.to_multiset() == t2@.to_multiset(),
{
    crate::table::lemma_same_counts_same_pairs(t1, t2);
}

/// Copies the `k` bytes of `s` starting at offset `c`.
#[verifier::loop_isolation(false)]
pub fn copy_window(s: &Vec<u8>, c: usize, k: usize) -> (w: Vec<u8>)
    requires
        c + k <= s@.len(),
    ensures
        w@ == s@.subrange(c as int, c as int + k as int),
{
    let n = s.len();
    let mut w: Vec<u8> = Vec::new();
    let mut i: usize = 0;
    while i < k
        invariant
            c + k <= n == s@.len(),
            0 <= i <= k,
            w@.len() == i,
            forall|m: int| 0 <= m < i ==> w@[m] == s@[c + m],
        decreases k - i,
    {
        w.push(s[c + i]);
        i = i + 1;
    }
    assert(w@ =~= s@.subrange(c as int, c as int + k as int));
    w
}

/// Extracts every window of the record and feeds the kept ones to the
/// table, adding one count per kept window.
#[verifier::loop_isolation(false)]
pub fn add_record(t: &mut KmerTable, s: &Vec<u8>, valid_only: bool)
    requires
        old(t).wf(),
        old(t).k >= 1,
        old(t).total + record_windows(s@, old(t).k as nat, valid_only) <= u64::MAX,
    ensures
        final(t).wf(),
        final(t).k == old(t).k,
        final(t).total == old(t).total + record_windows(s@, old(t).k as nat, valid_only),
        forall|v: Seq<u8>|
            final(t).count_of(v) == old(t).count_of(v) + record_occ(
                s@,
                old(t).k as nat,
                valid_only,
                v,
            ),
    {
    let ghost kk = old(t).k as nat;
    let k = t.k;
    if s.len() <= k {
        assert(window_count(s@, kk) == 0);
        return ;
    }
    let nw = s.len() - k + 1;
    assert(nw == window_count(s@, kk));
    let mut c: usize = 0;
    while c < nw
        invariant
            t.wf(),
            t.k == old(t).k,
            0 <= c <= nw,
            t.total == old(t).total + kept_upto_windows(s@, kk, valid_only, c as int),
            forall|v: Seq<u8>|
                t.count_of(v) == old(t).count_of(v) + occ_upto_windows(
                    s@,
                    kk,
                    valid_only,
                    c as int,
                    v,
                ),
        decreases nw - c,
    {
        let w = copy_window(s, c, k);
        assert(w@ == window_at(s@, kk, c as int));
        let keep = if valid_only {
            all_acgt(&w)
        } else {
            true
        };
        assert(keep == keep_window(window_at(s@, kk, c as int), valid_only));
        proof {
            lemma_kept_upto_mono(s@, kk, valid_only, c as int + 1, nw as int);
            assert(kept_upto_windows(s@, kk, valid_only, c as int + 1) == kept_upto_windows(
                s@,
                kk,
                valid_only,
                c as int,
            ) + if keep_window(window_at(s@, kk, c as int), valid_only) {
                1nat
            } else {
                0nat
            });
        }
        let ghost prev = *t;
        if keep {
            t.bump(w);
        }
        proof {
            assert forall|v: Seq<u8>|
                t.count_of(v) == old(t).count_of(v) + occ_upto_windows(
                    s@,
                    kk,
                    valid_only,
                    c as int + 1,
                    v,
                ) by {
                assert(occ_upto_windows(s@, kk, valid_only, c as int + 1, v) == occ_upto_windows(
                    s@,
                    kk,
                    valid_only,
                    c as int,
                    v,
                ) + if keep_window(window_at(s@, kk, c as int), valid_only) && window_at(
                    s@,
                    kk,
                    c as int,
                ) == v {
                    1nat
                } else {
                    0nat
                });
                if keep && v != w@ {
                    assert(t.count_of(v) == prev.count_of(v));
                }
            }
        }
        c = c + 1;
    }
}

/// Builds the k-mer table of the whole input: every kept window of every
/// record is counted once. The sum of all stored counts equals the number
/// of windows actually counted, and the count of each k-mer `v` equals the
/// number of kept windows spelling `v`.
#[verifier::loop_isolation(false)]
pub fn count_kmers(records: &Vec<Vec<u8>>, k: usize, valid_only: bool) -> (t: KmerTable)
    requires
        k >= 1,
        total_windows(seq_views(records@), k as nat, valid_only) <= u64::MAX,
    ensures
        t.wf(),
        t.k == k,
        t.total == total_windows(seq_views(records@), k as nat, valid_only),
        forall|v: Seq<u8>|
            t.count_of(v) == occurrences(seq_views(records@), k as nat, valid_only, v),
{
    let ghost rs = seq_views(records@);
    let mut t = KmerTable::empty(k);
    let mut i: usize = 0;
    while i < records.len()
        invariant
            t.wf(),
            t.k == k,
            0 <= i <= records@.len(),
            t.total == windows_upto_records(rs, k as nat, valid_only, i as int),
            forall|v: Seq<u8>|
                t.count_of(v) == occ_upto_records(rs, k as nat, valid_only, i as int, v),
        decreases records@.len() - i,
    {
        proof {
            assert(rs[i as int] == records@[i as int]@);
            lemma_windows_upto_mono(rs, k as nat, valid_only, i as int + 1, rs.len() as int);
            assert(windows_upto_records(rs, k as nat, valid_only, i as int + 1)
                == windows_upto_records(rs, k as nat, valid_only, i as int) + record_windows(
                rs[i as int],
                k as nat,
                valid_only,
            ));
        }
        let ghost prev = t;
        add_record(&mut t, &records[i], valid_only);
        proof {
            assert forall|v: Seq<u8>|
                t.count_of(v) == occ_upto_records(rs, k as nat, valid_only, i as int + 1, v) by {
                assert(occ_upto_records(rs, k as nat, valid_only, i as int + 1, v)
                    == occ_upto_records(rs, k as nat, valid_only, i as int, v) + record_occ(
                    rs[i as int],
                    k as nat,
                    valid_only,
                    v,
                ));
                assert(t.count_of(v) == prev.count_of(v) + record_occ(
                    records@[i as int]@,
                    k as nat,
                    valid_only,
                    v,
                ));
            }
        }
        i = i + 1;
    }
    t
}

} // verus!
