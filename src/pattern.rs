//! The lexical shape of a candidate symbol and the scanner that finds
//! candidates in a line.
use regex::bytes::Regex;
use vstd::prelude::*;

verus! {

/// `_`
pub const UNDERSCORE: u8 = 95;
/// `Z`
pub const UPPER_Z: u8 = 90;
/// `N`
pub const UPPER_N: u8 = 78;
/// `R`
pub const UPPER_R: u8 = 82;
/// `.`
pub const DOT: u8 = 46;
/// `$`
pub const DOLLAR: u8 = 36;

/// True for the bytes that may continue a candidate: ASCII letters and
/// digits, `_`, `.` and `$`.
pub open spec fn is_symbol_byte(b: u8) -> bool {
    (48 <= b && b <= 57) || (65 <= b && b <= 90) || (97 <= b && b <= 122) || b == UNDERSCORE
        || b == DOT || b == DOLLAR
}

/// Length of the mangling prefix at `p`: 3 for `_ZN`, 2 for `_R`, 0 when
/// neither starts there.
pub open spec fn prefix_len(s: Seq<u8>, p: int) -> int {
    if 0 <= p && p + 2 < s.len() && s[p] == UNDERSCORE && s[p + 1] == UPPER_Z && s[p + 2] == UPPER_N {
        3
    } else if 0 <= p && p + 1 < s.len() && s[p] == UNDERSCORE && s[p + 1] == UPPER_R {
        2
    } else {
        0
    }
}

/// End of the longest run of symbol bytes that begins at `q`.
pub open spec fn run_end(s: Seq<u8>, q: int) -> int
    decreases s.len() - q,
{
    if q < 0 || q >= s.len() || !is_symbol_byte(s[q]) {
        q
    } else {
        run_end(s, q + 1)
    }
}

/// A run of symbol bytes never leaves the sequence and never moves back.
pub proof fn lemma_run_end_bounds(s: Seq<u8>, q: int)
    requires
        0 <= q <= s.len(),
    ensures
        q <= run_end(s, q) <= s.len(),
    decreases s.len() - q,
{
    if q < s.len() && is_symbol_byte(s[q]) {
        lemma_run_end_bounds(s, q + 1);
    }
}

/// The leftmost candidate that starts at or after `from`, as a half-open
/// range: a prefix followed by the longest run of symbol bytes.
pub open spec fn first_candidate(s: Seq<u8>, from: int) -> Option<(int, int)>
    decreases s.len() - from,
{
    if from < 0 || from >= s.len() {
        None
    } else if prefix_len(s, from) > 0 {
        Some((from, run_end(s, from + prefix_len(s, from))))
    } else {
        first_candidate(s, from + 1)
    }
}

/// A candidate found from `from` starts no earlier than `from`, holds its
/// whole prefix and ends within the sequence.
pub proof fn lemma_first_candidate_bounds(s: Seq<u8>, from: int)
    requires
        0 <= from,
    ensures
        match first_candidate(s, from) {
            Some((a, b)) => from <= a && a + 2 <= b && b <= s.len() && prefix_len(s, a) > 0,
            None => true,
        },
    decreases s.len() - from,
{
    if from < s.len() {
        if prefix_len(s, from) > 0 {
            lemma_run_end_bounds(s, from + prefix_len(s, from));
        } else {
            lemma_first_candidate_bounds(s, from + 1);
        }
    }
}

/// Every candidate of the sequence from `from` on, in scanning order: each
/// search resumes where the previous candidate ended.
pub open spec fn candidate_spans_from(s: Seq<u8>, from: int) -> Seq<(int, int)>
    decreases s.len() - from,
    via candidate_spans_from_decreases
{
    match first_candidate(s, from) {
        Some((a, b)) => seq![(a, b)] + candidate_spans_from(s, b),
        None => seq![],
    }
}

#[via_fn]
proof fn candidate_spans_from_decreases(s: Seq<u8>, from: int) {
    if from >= 0 {
        lemma_first_candidate_bounds(s, from);
    }
}

/// Every candidate of a line, in order.
pub open spec fn candidate_spans(s: Seq<u8>) -> Seq<(int, int)> {
    candidate_spans_from(s, 0)
}

/// A half-open byte range `[start, end)` of a line.
#[derive(Clone, Copy, Debug, PartialEq, Eq)]
pub struct MatchSpan {
    pub start: usize,
    pub end: usize,
}

/// The ranges of a sequence of spans, as integer pairs.
pub open spec fn span_pairs(v: Seq<MatchSpan>) -> Seq<(int, int)> {
    v.map_values(|m: MatchSpan| (m.start as int, m.end as int))
}

/// Why the candidate pattern could not be built.
#[derive(Clone, Copy, Debug, PartialEq, Eq)]
pub enum PatternError {
    Compile,
}

#[verifier::external_type_specification]
#[verifier::external_body]
pub struct ExRegex(Regex);

#[verifier::external_type_specification]
#[verifier::external_body]
pub struct ExRegexError(regex::Error);

/// The compiled candidate pattern. Its one field is only ever set by `new`,
/// so it always holds `_(ZN|R)[$._[:alnum:]]*`.
pub struct SymbolPattern {
    regex: Regex,
}

/// Relies on regex::bytes::Regex::new to compile the candidate pattern. It
/// fails only on an invalid pattern or one over the size limit, and this
/// small fixed pattern is neither.
#[verifier::external_body]
fn compile_candidate_regex() -> (r: Result<Regex, regex::Error>)
    ensures
        r is Ok,
{
    Regex::new(r"_(ZN|R)[\$\._[:alnum:]]*")
}

impl SymbolPattern {
    /// Builds the candidate pattern.
    pub fn new() -> (r: Result<SymbolPattern, PatternError>)
        ensures
            r is Ok,
    {
        match compile_candidate_regex() {
            Ok(regex) => Ok(SymbolPattern { regex }),
            Err(_) => Err(PatternError::Compile),
        }
    }

    /// Relies on regex::bytes::Regex::find_at on the candidate pattern: the
    /// leftmost-first match starting at or after `start`. The pattern has no
    /// look-around and its trailing class is greedy, so that match starts at
    /// the first `_ZN` or `_R` from `start` on and takes the longest run of
    /// symbol bytes after it. `[[:alnum:]]` is ASCII-only in the regex crate.
    #[verifier::external_body]
    fn find_at(&self, line: &[u8], start: usize) -> (r: Option<(usize, usize)>)
        requires
            start <= line@.len(),
        ensures
            match r {
                Some((a, b)) => first_candidate(line@, start as int) == Some((a as int, b as int)),
                None => first_candidate(line@, start as int) is None,
            },
    {
        self.regex.find_at(line, start).map(|m| (m.start(), m.end()))
    }

    /// Every candidate of `line`, in order of position; each search resumes
    /// right after the previous candidate.
    pub fn find_candidates(&self, line: &[u8]) -> (r: Vec<MatchSpan>)
        ensures
            span_pairs(r@) == candidate_spans(line@),
    {
        let mut out: Vec<MatchSpan> = Vec::new();
        let mut pos: usize = 0;
        loop
            invariant
                pos <= line@.len(),
                span_pairs(out@) + candidate_spans_from(line@, pos as int) == candidate_spans(line@),
            decreases line@.len() - pos,
        {
            match self.find_at(line, pos) {
                None => {
                    proof {
                        assert(span_pairs(out@) + seq![] =~= span_pairs(out@));
                    }
                    return out;
                },
                Some((a, b)) => {
                    proof {
                        lemma_first_candidate_bounds(line@, pos as int);
                    }
                    let ghost old_out = out@;
                    out.push(MatchSpan { start: a, end: b });
                    proof {
                        assert(span_pairs(out@) =~= span_pairs(old_out) + seq![(a as int, b as int)]);
                        assert(candidate_spans_from(line@, pos as int) == seq![(a as int, b as int)]
                            + candidate_spans_from(line@, b as int));
                        assert(span_pairs(out@) + candidate_spans_from(line@, b as int)
                            =~= span_pairs(old_out) + candidate_spans_from(line@, pos as int));
                    }
                    pos = b;
                },
            }
        }
    }
}

} // verus!
