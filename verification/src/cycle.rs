//! Per-cycle statistics. When the window length equals the read length,
//! each record yields exactly one window, the table keys are the distinct
//! reads, and position `i` of every key is the base called at sequencing
//! cycle `i`. This module builds the paired read/quality tables and, for
//! each position, counts the bases of each kind across the distinct keys
//! and extracts the column of quality bytes.

use vstd::prelude::*;

use crate::bases::{all_acgt, is_acgtn, is_base_a, is_base_c, is_base_g, is_base_n, is_base_t};
use crate::counting::{copy_window, keep_window};
use crate::table::KmerTable;

verus! {

/// The byte strings of a vector of (sequence, quality) records.
pub open spec fn rec_views(rs: Seq<(Vec<u8>, Vec<u8>)>) -> Seq<(Seq<u8>, Seq<u8>)> {
    Seq::new(rs.len(), |i: int| (rs[i].0@, rs[i].1@))
}

/// Among the first `n` records, how many are kept and have sequence `v`.
pub open spec fn read_occ_upto(
    ps: Seq<(Seq<u8>, Seq<u8>)>,
    valid_only: bool,
    n: int,
    v: Seq<u8>,
) -> nat
    decreases n,
{
    if n <= 0 {
        0
    } else {
        read_occ_upto(ps, valid_only, n - 1, v) + if keep_window(ps[n - 1].0, valid_only) && ps[n
            - 1].0 == v {
            1nat
        } else {
            0nat
        }
    }
}

/// How many kept records have sequence `v`.
pub open spec fn read_occurrences(ps: Seq<(Seq<u8>, Seq<u8>)>, valid_only: bool, v: Seq<u8>) -> nat {
    read_occ_upto(ps, valid_only, ps.len() as int, v)
}

/// Among the first `n` records, how many are kept and have quality `v`.
/// A record is kept or dropped by its sequence, never by its quality.
pub open spec fn qual_occ_upto(
    ps: Seq<(Seq<u8>, Seq<u8>)>,
    valid_only: bool,
    n: int,
    v: Seq<u8>,
) -> nat
    decreases n,
{
    if n <= 0 {
        0
    } else {
        qual_occ_upto(ps, valid_only, n - 1, v) + if keep_window(ps[n - 1].0, valid_only) && ps[n
            - 1].1 == v {
            1nat
        } else {
            0nat
        }
    }
}

/// How many kept records have quality string `v`.
pub open spec fn qual_occurrences(ps: Seq<(Seq<u8>, Seq<u8>)>, valid_only: bool, v: Seq<u8>) -> nat {
    qual_occ_upto(ps, valid_only, ps.len() as int, v)
}

/// Among the first `n` records, how many are kept.
pub open spec fn kept_upto_reads(ps: Seq<(Seq<u8>, Seq<u8>)>, valid_only: bool, n: int) -> nat
    decreases n,
{
    if n <= 0 {
        0
    } else {
        kept_upto_reads(ps, valid_only, n - 1) + if keep_window(ps[n - 1].0, valid_only) {
            1nat
        } else {
            0nat
        }
    }
}

/// How many records are kept in all.
pub open spec fn kept_reads(ps: Seq<(Seq<u8>, Seq<u8>)>, valid_only: bool) -> nat {
    kept_upto_reads(ps, valid_only, ps.len() as int)
}

/// Builds the paired cycle tables: one counting distinct reads, one
/// counting distinct quality strings, both keyed by byte strings of
/// length `k`. Intended for `k` equal to the read length, which every
/// record must have; each record then contributes exactly one window.
/// In valid-only mode a record whose sequence holds a byte outside
/// A/T/G/C is dropped from both tables.
#[verifier::loop_isolation(false)]
pub fn count_cycle_tables(records: &Vec<(Vec<u8>, Vec<u8>)>, k: usize, valid_only: bool) -> (r: (
    KmerTable,
    KmerTable,
))
    requires
        k >= 1,
        forall|i: int|
            0 <= i < records@.len() ==> (#[trigger] records@[i]).0@.len() == k
                && records@[i].1@.len() == k,
    ensures
        r.0.wf(),
        r.1.wf(),
        r.0.k == k,
        r.1.k == k,
        r.0.total == kept_reads(rec_views(records@), valid_only),
        r.1.total == r.0.total,
        forall|v: Seq<u8>| r.0.count_of(v) == read_occurrences(rec_views(records@), valid_only, v),
        forall|v: Seq<u8>| r.1.count_of(v) == qual_occurrences(rec_views(records@), valid_only, v),
{
    let ghost ps = rec_views(records@);
    let mut seqs = KmerTable::empty(k);
    let mut quals = KmerTable::empty(k);
    let n = records.len();
    let mut i: usize = 0;
    while i < n
        invariant
            seqs.wf(),
            quals.wf(),
            seqs.k == k,
            quals.k == k,
            0 <= i <= n,
            seqs.total == kept_upto_reads(ps, valid_only, i as int),
            quals.total == seqs.total,
            seqs.total <= i,
            forall|v: Seq<u8>| seqs.count_of(v) == read_occ_upto(ps, valid_only, i as int, v),
            forall|v: Seq<u8>| quals.count_of(v) == qual_occ_upto(ps, valid_only, i as int, v),
        decreases n - i,
    {
        let rec = &records[i];
        let s = copy_window(&rec.0, 0, k);
        assert(s@ =~= ps[i as int].0);
        let keep = if valid_only {
            all_acgt(&s)
        } else {
            true
        };
        assert(keep == keep_window(ps[i as int].0, valid_only));
        let ghost seqs_prev = seqs;
        let ghost quals_prev = quals;
        if keep {
            seqs.bump(s);
            let q = copy_window(&rec.1, 0, k);
            assert(q@ =~= ps[i as int].1);
            quals.bump(q);
        }
        proof {
            assert(kept_upto_reads(ps, valid_only, i as int + 1) == kept_upto_reads(
                ps,
                valid_only,
                i as int,
            ) + if keep_window(ps[i as int].0, valid_only) {
                1nat
            } else {
                0nat
            });
            assert forall|v: Seq<u8>|
                seqs.count_of(v) == read_occ_upto(ps, valid_only, i as int + 1, v) by {
                assert(read_occ_upto(ps, valid_only, i as int + 1, v) == read_occ_upto(
                    ps,
                    valid_only,
                    i as int,
                    v,
                ) + if keep_window(ps[i as int].0, valid_only) && ps[i as int].0 == v {
                    1nat
                } else {
                    0nat
                });
                if keep && v != ps[i as int].0 {
                    assert(seqs.count_of(v) == seqs_prev.count_of(v));
                }
            }
            assert forall|v: Seq<u8>|
                quals.count_of(v) == qual_occ_upto(ps, valid_only, i as int + 1, v) by {
                assert(qual_occ_upto(ps, valid_only, i as int + 1, v) == qual_occ_upto(
                    ps,
                    valid_only,
                    i as int,
                    v,
                ) + if keep_window(ps[i as int].0, valid_only) && ps[i as int].1 == v {
                    1nat
                } else {
                    0nat
                });
                if keep && v != ps[i as int].1 {
                    assert(quals.count_of(v) == quals_prev.count_of(v));
                }
            }
        }
        i = i + 1;
    }
    (seqs, quals)
}

/// The bytes found at position `i` of every key, in table order.
pub open spec fn column(tv: Seq<(Seq<u8>, u64)>, i: int) -> Seq<u8> {
    Seq::new(tv.len(), |j: int| tv[j].0[i])
}

/// Among the first `n` bytes of the column, how many are A or a.
pub open spec fn count_base_a(cv: Seq<u8>, n: int) -> nat
    decreases n,
{
    if n <= 0 {
        0
    } else {
        count_base_a(cv, n - 1) + if is_base_a(cv[n - 1]) {
            1nat
        } else {
            0nat
        }
    }
}

/// Among the first `n` bytes of the column, how many are T or t.
pub open spec fn count_base_t(cv: Seq<u8>, n: int) -> nat
    decreases n,
{
    if n <= 0 {
        0
    } else {
        count_base_t(cv, n - 1) + if is_base_t(cv[n - 1]) {
            1nat
        } else {
            0nat
        }
    }
}

/// Among the first `n` bytes of the column, how many are G or g.
pub open spec fn count_base_g(cv: Seq<u8>, n: int) -> nat
    decreases n,
{
    if n <= 0 {
        0
    } else {
        count_base_g(cv, n - 1) + if is_base_g(cv[n - 1]) {
            1nat
        } else {
            0nat
        }
    }
}

/// Among the first `n` bytes of the column, how many are C or c.
pub open spec fn count_base_c(cv: Seq<u8>, n: int) -> nat
    decreases n,
{
    if n <= 0 {
        0
    } else {
        count_base_c(cv, n - 1) + if is_base_c(cv[n - 1]) {
            1nat
        } else {
            0nat
        }
    }
}

/// Among the first `n` bytes of the column, how many are N or n.
pub open spec fn count_base_n(cv: Seq<u8>, n: int) -> nat
    decreases n,
{
    if n <= 0 {
        0
    } else {
        count_base_n(cv, n - 1) + if is_base_n(cv[n - 1]) {
            1nat
        } else {
            0nat
        }
    }
}

/// Among the first `n` bytes of the column, how many are none of the five
/// recognised symbols.
pub open spec fn count_outside(cv: Seq<u8>, n: int) -> nat
    decreases n,
{
    if n <= 0 {
        0
    } else {
        count_outside(cv, n - 1) + if !is_acgtn(cv[n - 1]) {
            1nat
        } else {
            0nat
        }
    }
}

/// No byte outside the five-symbol alphabet occurs among the first `n`
/// exactly when none is counted outside.
proof fn lemma_count_outside_zero(cv: Seq<u8>, n: int)
    requires
        0 <= n <= cv.len(),
    ensures
        (count_outside(cv, n) == 0) <==> (forall|j: int| 0 <= j < n ==> is_acgtn(#[trigger] cv[j])),
    decreases n,
{
    if n > 0 {
        lemma_count_outside_zero(cv, n - 1);
    }
}

/// The per-position base tally across the table's distinct keys: how many
/// keys carry each of the five symbols at the position, out of `total`
/// keys.
pub struct BaseCounts {
    pub a: usize,
    pub t: usize,
    pub g: usize,
    pub c: usize,
    pub n: usize,
    pub total: usize,
}

/// Counts, at position `i`, the keys whose byte there is A, T, G, C or N
/// (either case), over all distinct keys of the table. The five tallies
/// never exceed the number of keys, and they exhaust it exactly when
/// every key's byte at `i` is one of the five symbols.
#[verifier::loop_isolation(false)]
pub fn base_counts_at(t: &KmerTable, i: usize) -> (r: BaseCounts)
    requires
        t.wf(),
        i < t.k,
    ensures
        r.total == t.distinct(),
        r.a == count_base_a(column(t@, i as int), t@.len() as int),
        r.t == count_base_t(column(t@, i as int), t@.len() as int),
        r.g == count_base_g(column(t@, i as int), t@.len() as int),
        r.c == count_base_c(column(t@, i as int), t@.len() as int),
        r.n == count_base_n(column(t@, i as int), t@.len() as int),
        r.a + r.t + r.g + r.c + r.n <= r.total,
        (r.a + r.t + r.g + r.c + r.n == r.total) <==> (forall|j: int|
            0 <= j < t@.len() ==> is_acgtn(#[trigger] column(t@, i as int)[j])),
{
    let ghost col = column(t@, i as int);
    let nk = t.keys.len();
    let mut a: usize = 0;
    let mut tt: usize = 0;
    let mut g: usize = 0;
    let mut c: usize = 0;
    let mut n: usize = 0;
    let mut outside: usize = 0;
    let mut j: usize = 0;
    while j < nk
        invariant
            0 <= j <= nk,
            a == count_base_a(col, j as int),
            tt == count_base_t(col, j as int),
            g == count_base_g(col, j as int),
            c == count_base_c(col, j as int),
            n == count_base_n(col, j as int),
            outside == count_outside(col, j as int),
            a + tt + g + c + n + outside == j,
        decreases nk - j,
    {
        assert(t@[j as int].0.len() == t.k);
        let b = t.keys[j][i];
        assert(b == col[j as int]);
        if b == 65 || b == 97 {
            a = a + 1;
        } else if b == 84 || b == 116 {
            tt = tt + 1;
        } else if b == 71 || b == 103 {
            g = g + 1;
        } else if b == 67 || b == 99 {
            c = c + 1;
        } else if b == 78 || b == 110 {
            n = n + 1;
        } else {
            outside = outside + 1;
        }
        j = j + 1;
    }
    proof {
        lemma_count_outside_zero(col, nk as int);
    }
    BaseCounts { a, t: tt, g, c, n, total: nk }
}

/// The column of bytes at position `i` across all keys of the table, in
/// table order. On the quality table this is the per-cycle column of
/// encoded quality values.
#[verifier::loop_isolation(false)]
pub fn qual_column(t: &KmerTable, i: usize) -> (col: Vec<u8>)
    requires
        t.wf(),
        i < t.k,
    ensures
        col@ == column(t@, i as int),
{
    let nk = t.keys.len();
    let mut out: Vec<u8> = Vec::new();
    let mut j: usize = 0;
    while j < nk
        invariant
            0 <= j <= nk,
            out@.len() == j,
            forall|m: int| 0 <= m < j ==> out@[m] == column(t@, i as int)[m],
        decreases nk - j,
    {
        assert(t@[j as int].0.len() == t.k);
        out.push(t.keys[j][i]);
        j = j + 1;
    }
    assert(out@ =~= column(t@, i as int));
    out
}

} // verus!
