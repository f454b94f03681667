use fastkmers::counting::count_kmers;
use fastkmers::cycle::{base_counts_at, count_cycle_tables, qual_column};
use fastkmers::query::{compile_pattern, filter_table};

fn rec(s: &str) -> Vec<u8> {
    s.as_bytes().to_vec()
}

// Three reads of GAAGAT with k = 5 count GAAGA and AAGAT three times
// each; the query A[T|G]A$ selects exactly the k-mers ending in ATA,
// A|A or AGA, so GAAGA -> 3 is the whole answer.
#[test]
fn regex_filter_selects_matching_kmers() {
    let records = vec![rec("GAAGAT"), rec("GAAGAT"), rec("GAAGAT")];
    let t = count_kmers(&records, 5, false);
    assert_eq!(t.get(&rec("GAAGA")), 3);
    assert_eq!(t.get(&rec("AAGAT")), 3);
    let p = compile_pattern("A[T|G]A$").expect("pattern must compile");
    let rows = filter_table(&t, &p);
    assert_eq!(rows.len(), 1);
    assert_eq!(rows[0].0, rec("GAAGA"));
    assert_eq!(rows[0].1, 3);
}

// Every emitted row is a table entry and matches; nothing else is
// emitted, and a pattern matching nothing yields an empty listing.
#[test]
fn regex_filter_subset_of_table() {
    let records = vec![rec("GGATCAG"), rec("ATGC")];
    let t = count_kmers(&records, 3, false);
    let p = compile_pattern("^GA").expect("pattern must compile");
    let rows = filter_table(&t, &p);
    assert_eq!(rows.len(), 1);
    assert_eq!(rows[0].0, rec("GAT"));
    assert_eq!(rows[0].1, 1);
    let none = compile_pattern("ZZZ").expect("pattern must compile");
    assert_eq!(filter_table(&t, &none).len(), 0);
}

// An unclosed parenthesis is not a valid pattern: compilation reports an
// error rather than an empty result, and whether a pattern compiles is
// the same from one run to the next.
#[test]
fn invalid_pattern_is_reported() {
    assert!(compile_pattern("foo(bar").is_err());
    assert!(compile_pattern("foo(bar").is_err());
    assert!(compile_pattern("A[T|G]A$").is_ok());
    assert!(compile_pattern("A[T|G]A$").is_ok());
}

// Cycle mode on ten reads of length 126 with four distinct sequences:
// at the first position the distinct keys carry A, A, T and C, so the
// base fractions are 0.5 / 0.25 / 0 / 0.25 / 0 for A/T/G/C/N.
#[test]
fn cycle_first_position_fractions() {
    let k = 126;
    let r1 = "A".repeat(k);
    let r2 = format!("A{}", "C".repeat(k - 1));
    let r3 = "T".repeat(k);
    let r4 = "C".repeat(k);
    let qual = "I".repeat(k);
    let mut records: Vec<(Vec<u8>, Vec<u8>)> = Vec::new();
    for _ in 0..4 {
        records.push((rec(&r1), rec(&qual)));
    }
    for _ in 0..3 {
        records.push((rec(&r2), rec(&qual)));
    }
    for _ in 0..2 {
        records.push((rec(&r3), rec(&qual)));
    }
    records.push((rec(&r4), rec(&qual)));
    let (seqs, quals) = count_cycle_tables(&records, k, false);
    assert_eq!(seqs.distinct_count(), 4);
    assert_eq!(seqs.total, 10);
    assert_eq!(quals.total, 10);
    let b = base_counts_at(&seqs, 0);
    assert_eq!((b.a, b.t, b.g, b.c, b.n, b.total), (2, 1, 0, 1, 0, 4));
    let fa = b.a as f32 / b.total as f32;
    let ft = b.t as f32 / b.total as f32;
    let fg = b.g as f32 / b.total as f32;
    let fc = b.c as f32 / b.total as f32;
    let fn_ = b.n as f32 / b.total as f32;
    assert_eq!((fa, ft, fg, fc, fn_), (0.5, 0.25, 0.0, 0.25, 0.0));
    // Second position: the distinct keys carry A, C, T, C.
    let b1 = base_counts_at(&seqs, 1);
    assert_eq!((b1.a, b1.t, b1.g, b1.c, b1.n, b1.total), (1, 1, 0, 2, 0, 4));
    // All reads share one quality string, so the quality table has one
    // key and every cycle's quality column is the single byte I.
    assert_eq!(quals.distinct_count(), 1);
    assert_eq!(qual_column(&quals, 0), vec![73u8]);
    assert_eq!(qual_column(&quals, 125), vec![73u8]);
}

// The five base tallies never exceed the number of keys; they exhaust it
// exactly where every key's byte is one of A/T/G/C/N. At position 1 the
// byte X falls outside the alphabet, so the tallies fall short there.
#[test]
fn base_tallies_bounded_by_keys() {
    let records = vec![
        (rec("AXGN"), rec("IIII")),
        (rec("TTGC"), rec("JJJJ")),
        (rec("GACA"), rec("KKKK")),
    ];
    let (seqs, _quals) = count_cycle_tables(&records, 4, false);
    assert_eq!(seqs.distinct_count(), 3);
    for i in 0..4 {
        let b = base_counts_at(&seqs, i);
        assert!(b.a + b.t + b.g + b.c + b.n <= b.total);
    }
    let b0 = base_counts_at(&seqs, 0);
    assert_eq!(b0.a + b0.t + b0.g + b0.c + b0.n, b0.total);
    let b1 = base_counts_at(&seqs, 1);
    assert_eq!(b1.a + b1.t + b1.g + b1.c + b1.n + 1, b1.total);
    let b3 = base_counts_at(&seqs, 3);
    assert_eq!(b3.n, 1);
    assert_eq!(b3.a + b3.t + b3.g + b3.c + b3.n, b3.total);
}

// In valid-only cycle mode a read with a symbol outside A/T/G/C is
// dropped from both tables, quality included.
#[test]
fn cycle_valid_mode_drops_read_pair() {
    let records = vec![
        (rec("AXGN"), rec("IIII")),
        (rec("TTGC"), rec("JJJJ")),
        (rec("TTGC"), rec("LLLL")),
    ];
    let (seqs, quals) = count_cycle_tables(&records, 4, true);
    assert_eq!(seqs.total, 2);
    assert_eq!(quals.total, 2);
    assert_eq!(seqs.distinct_count(), 1);
    assert_eq!(quals.distinct_count(), 2);
    assert_eq!(seqs.get(&rec("AXGN")), 0);
    assert_eq!(quals.get(&rec("IIII")), 0);
    let col = qual_column(&quals, 0);
    assert_eq!(col.len(), 2);
    assert!(col.contains(&74u8) && col.contains(&76u8));
}
