use fastkmers::counting::count_kmers;
use fastkmers::histogram::freq_histogram;

fn rec(s: &str) -> Vec<u8> {
    s.as_bytes().to_vec()
}

// Ten reads, k = 3: the k-mer ATC is counted once per read, so the raw
// table reports ATC -> 10.
#[test]
fn raw_table_ten_reads() {
    let records: Vec<Vec<u8>> = (0..10).map(|_| rec("GGATCAG")).collect();
    let t = count_kmers(&records, 3, false);
    assert_eq!(t.get(&rec("ATC")), 10);
    assert_eq!(t.get(&rec("GGA")), 10);
    assert_eq!(t.get(&rec("GAT")), 10);
    assert_eq!(t.get(&rec("TCA")), 10);
    assert_eq!(t.get(&rec("CAG")), 10);
    assert_eq!(t.get(&rec("AAA")), 0);
    assert_eq!(t.distinct_count(), 5);
    assert_eq!(t.total, 50);
}

// Records without quality strings (as a FASTA source yields them) go
// through the same counter: the sequences alone decide the table.
#[test]
fn fasta_records_count_alike() {
    let records: Vec<Vec<u8>> = (0..10).map(|_| rec("GGATCAG")).collect();
    let t = count_kmers(&records, 3, false);
    assert_eq!(t.get(&rec("ATC")), 10);
}

// Same fixture, frequency mode: five distinct k-mers occur exactly ten
// times each, so the histogram holds the line (10, 5).
#[test]
fn freq_histogram_ten_by_five() {
    let records: Vec<Vec<u8>> = (0..10).map(|_| rec("GGATCAG")).collect();
    let t = count_kmers(&records, 3, false);
    let h = freq_histogram(&t);
    assert_eq!(h.get(10), 5);
    assert_eq!(h.get(1), 0);
    assert_eq!(h.occs.len(), 1);
}

// The sum of all stored counts equals the number of windows actually
// counted: a record shorter than k + 1 is skipped entirely (even at
// length exactly k), the rest yield len - k + 1 windows each.
#[test]
fn total_equals_counted_windows() {
    let records = vec![rec("GGATCAG"), rec("AT"), rec("ATG"), rec("ATGC")];
    let t = count_kmers(&records, 3, false);
    // 5 windows from GGATCAG, 0 from AT, 0 from ATG (length guard), 2 from ATGC.
    assert_eq!(t.total, 7);
    let mut sum: u64 = 0;
    for i in 0..t.counts.len() {
        sum += t.counts[i];
    }
    assert_eq!(sum, 7);
}

// Valid-only mode drops every window that carries a symbol outside
// A/T/G/C; lowercase bases are accepted.
#[test]
fn valid_mode_drops_ambiguous_windows() {
    let records = vec![rec("ATNGA"), rec("atgca")];
    let strict = count_kmers(&records, 3, true);
    // All three windows of ATNGA contain N; atgca yields atg, tgc, gca.
    assert_eq!(strict.total, 3);
    assert_eq!(strict.get(&rec("ATN")), 0);
    assert_eq!(strict.get(&rec("atg")), 1);
    let lax = count_kmers(&records, 3, false);
    assert_eq!(lax.total, 6);
    assert_eq!(lax.get(&rec("ATN")), 1);
}

// Counting is deterministic: two runs over the same input agree on the
// multiset of (k-mer, count) pairs, whatever order entries come out in.
#[test]
fn repeated_runs_agree() {
    let records = vec![rec("GGATCAG"), rec("ATGC"), rec("TTTTT")];
    let t1 = count_kmers(&records, 3, false);
    let t2 = count_kmers(&records, 3, false);
    let mut pairs1: Vec<(Vec<u8>, u64)> = Vec::new();
    for i in 0..t1.keys.len() {
        pairs1.push((t1.keys[i].clone(), t1.counts[i]));
    }
    let mut pairs2: Vec<(Vec<u8>, u64)> = Vec::new();
    for i in 0..t2.keys.len() {
        pairs2.push((t2.keys[i].clone(), t2.counts[i]));
    }
    pairs1.sort();
    pairs2.sort();
    assert_eq!(pairs1, pairs2);
}

// Empty input: the table and its histogram are empty, and a record too
// short for even one window leaves them empty as well.
#[test]
fn empty_input_yields_empty_table() {
    let no_records: Vec<Vec<u8>> = Vec::new();
    let t = count_kmers(&no_records, 3, false);
    assert_eq!(t.total, 0);
    assert_eq!(t.distinct_count(), 0);
    let h = freq_histogram(&t);
    assert_eq!(h.occs.len(), 0);
    let short_only = vec![rec("ATG")];
    let t2 = count_kmers(&short_only, 3, false);
    assert_eq!(t2.total, 0);
    assert_eq!(t2.distinct_count(), 0);
}

// The histogram's two invariants on a mixed table: its values sum to the
// number of distinct k-mers, and occurrence times frequency sums to the
// table's total count.
#[test]
fn histogram_sums_match_table() {
    let records = vec![rec("GGATCAG"), rec("GGATC"), rec("TTTT")];
    let t = count_kmers(&records, 3, false);
    let h = freq_histogram(&t);
    let mut freq_sum: u64 = 0;
    let mut weighted: u64 = 0;
    for i in 0..h.occs.len() {
        freq_sum += h.freqs[i];
        weighted += h.occs[i] * h.freqs[i];
    }
    assert_eq!(freq_sum, t.distinct_count() as u64);
    assert_eq!(weighted, t.total);
}
