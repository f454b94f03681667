//! The regex query filter: compiles a user pattern and selects the
//! counted k-mers whose text matches it anywhere. Matching itself is done
//! by the regex crate; everything around the two calls is verified.

use vstd::prelude::*;

use crate::table::KmerTable;
use crate::counting::copy_window;

verus! {

#[verifier::external_type_specification]
#[verifier::external_body]
pub struct ExRegex(regex::bytes::Regex);

#[verifier::external_type_specification]
#[verifier::external_body]
pub struct ExRegexError(regex::Error);

/// What `regex::bytes::Regex::is_match` returns for the expression
/// compiled from `pat` on the haystack `text`. The result is a function
/// of the two strings alone.
pub uninterp spec fn re_match(pat: Seq<char>, text: Seq<u8>) -> bool;

/// Whether `regex::bytes::Regex::new` accepts `pat`: the default builder
/// is deterministic, so compiling succeeds or fails as a function of the
/// pattern text alone.
pub uninterp spec fn re_compiles(pat: Seq<char>) -> bool;

/// A compiled query: the regex together with the pattern text it was
/// compiled from. The fields stay private so that the two can never be
/// put together from mismatched halves.
pub struct Pattern {
    re: regex::bytes::Regex,
    text: String,
}

impl Pattern {
    /// The pattern text this query was compiled from.
    pub closed spec fn pat(self) -> Seq<char> {
        self.text@
    }
}

/// The user pattern was not a valid regular expression.
#[derive(Debug)]
pub struct PatternError {}

/// Relies on regex::bytes::Regex::new: it compiles the pattern string, or
/// reports an error for an invalid (or oversized) pattern; whether it
/// succeeds depends on the pattern alone.
#[verifier::external_body]
fn compile_regex(pattern: &str) -> (r: Result<Pattern, regex::Error>)
    ensures
        (r is Ok) == re_compiles(pattern@),
        r matches Ok(p) ==> p.pat() == pattern@,
{
    match regex::bytes::Regex::new(pattern) {
        Ok(re) => Ok(Pattern { re, text: pattern.to_string() }),
        Err(e) => Err(e),
    }
}

/// Relies on regex::bytes::Regex::is_match: true exactly when the pattern
/// matches somewhere in the haystack; the result depends on the pattern
/// and the haystack alone.
#[verifier::external_body]
fn regex_is_match(p: &Pattern, text: &Vec<u8>) -> (r: bool)
    ensures
        r == re_match(p.pat(), text@),
{
    p.re.is_match(text.as_slice())
}

/// Compiles the query pattern, mapping a failure to the library's own
/// error. It succeeds exactly on the patterns the regex builder accepts,
/// so a failure is reported, never a silent empty result, and two runs
/// over the same pattern agree.
pub fn compile_pattern(pattern: &str) -> (r: Result<Pattern, PatternError>)
    ensures
        (r is Ok) == re_compiles(pattern@),
        r matches Ok(p) ==> p.pat() == pattern@,
{
    match compile_regex(pattern) {
        Ok(p) => Ok(p),
        Err(_) => Err(PatternError {}),
    }
}

/// The mathematical content of the filtered rows.
pub open spec fn rows_view(s: Seq<(Vec<u8>, u64)>) -> Seq<(Seq<u8>, u64)> {
    Seq::new(s.len(), |i: int| (s[i].0@, s[i].1))
}

/// Selects, in table order, the entries whose k-mer matches the query:
/// the result is exactly the matching part of the raw table — every
/// emitted row is a table entry whose k-mer matches, and every matching
/// table entry is emitted.
#[verifier::loop_isolation(false)]
pub fn filter_table(t: &KmerTable, p: &Pattern) -> (r: Vec<(Vec<u8>, u64)>)
    requires
        t.wf(),
    ensures
        rows_view(r@) == t@.filter(|e: (Seq<u8>, u64)| re_match(p.pat(), e.0)),
        forall|j: int|
            0 <= j < r@.len() ==> re_match(p.pat(), (#[trigger] rows_view(r@)[j]).0),
        forall|j: int| 0 <= j < r@.len() ==> t@.contains(#[trigger] rows_view(r@)[j]),
        forall|i: int|
            0 <= i < t@.len() && re_match(p.pat(), (#[trigger] t@[i]).0) ==> rows_view(
                r@,
            ).contains(t@[i]),
{
    let ghost pred = |e: (Seq<u8>, u64)| re_match(p.pat(), e.0);
    let mut out: Vec<(Vec<u8>, u64)> = Vec::new();
    let n = t.keys.len();
    let mut i: usize = 0;
    while i < n
        invariant
            0 <= i <= n,
            rows_view(out@) == t@.take(i as int).filter(pred),
            forall|j: int|
                0 <= j < out@.len() ==> re_match(p.pat(), (#[trigger] rows_view(out@)[j]).0),
            forall|j: int| 0 <= j < out@.len() ==> t@.contains(#[trigger] rows_view(out@)[j]),
            forall|m: int|
                0 <= m < i && re_match(p.pat(), (#[trigger] t@[m]).0) ==> rows_view(
                    out@,
                ).contains(t@[m]),
        decreases n - i,
    {
        let ghost prev = rows_view(out@);
        let matched = regex_is_match(p, &t.keys[i]);
        proof {
            assert(t@.take(i as int + 1) =~= t@.take(i as int).push(t@[i as int]));
            lemma_filter_push(t@.take(i as int), pred, t@[i as int]);
        }
        if matched {
            let klen = t.keys[i].len();
            let key = copy_window(&t.keys[i], 0, klen);
            assert(key@ =~= t@[i as int].0);
            let c = t.counts[i];
            out.push((key, c));
            proof {
                assert(rows_view(out@) =~= prev.push((key@, c)));
                assert(rows_view(out@) == t@.take(i as int + 1).filter(pred));
                assert forall|m: int|
                    0 <= m < i + 1 && re_match(p.pat(), (#[trigger] t@[m]).0) implies rows_view(
                    out@,
                ).contains(t@[m]) by {
                    if m < i {
                        let jm = choose|jm: int| 0 <= jm < prev.len() && prev[jm] == t@[m];
                        assert(rows_view(out@)[jm] == t@[m]);
                    } else {
                        assert(rows_view(out@)[rows_view(out@).len() - 1] == t@[m]);
                    }
                }
                assert forall|j: int| 0 <= j < out@.len() implies t@.contains(
                    #[trigger] rows_view(out@)[j],
                ) by {
                    if j < out@.len() - 1 {
                        assert(rows_view(out@)[j] == prev[j]);
                    } else {
                        assert(rows_view(out@)[j] == t@[i as int]);
                    }
                }
            }
        } else {
            proof {
                assert(rows_view(out@) == t@.take(i as int + 1).filter(pred));
            }
        }
        i = i + 1;
    }
    proof {
        assert(t@.take(n as int) =~= t@);
    }
    out
}

/// Filtering a sequence after appending one element keeps the old part
/// and appends the element exactly when it satisfies the predicate.
proof fn lemma_filter_push(
    s: Seq<(Seq<u8>, u64)>,
    pred: spec_fn((Seq<u8>, u64)) -> bool,
    x: (Seq<u8>, u64),
)
    ensures
        s.push(x).filter(pred) == if pred(x) {
            s.filter(pred).push(x)
        } else {
            s.filter(pred)
        },
{
    reveal(Seq::filter);
    assert(s.push(x).drop_last() =~= s);
    assert(s.push(x).last() == x);
}

} // verus!
