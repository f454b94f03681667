//! K-mer statistics for nucleotide reads: sliding-window extraction and
//! multiset counting, an occurrence-frequency histogram, a regex query
//! filter over the counted k-mers, and per-cycle base-composition counts.

pub mod bases;
pub mod table;
pub mod counting;
pub mod histogram;
pub mod query;
pub mod cycle;
