//! Properties of the scanner and the engine, stated over their models.
use crate::engine::{gap, line_output, renderer, substituted};
use crate::pattern::{
    candidate_spans, candidate_spans_from, first_candidate, lemma_first_candidate_bounds,
    prefix_len,
};
use crate::pattern::{is_symbol_byte, lemma_run_end_bounds, run_end};
use crate::render::{candidate_output, html_escaped, Options};
use vstd::prelude::*;
use vstd::utf8::{
    decode_utf8, encode_utf8, encode_utf8_decode_utf8, partial_valid_utf8,
    partial_valid_utf8_extend_ascii_block, valid_utf8,
};

verus! {

/// Spans that start at or after `from`, are non-empty, end within `len`,
/// and follow each other without overlap.
pub open spec fn spans_ordered(spans: Seq<(int, int)>, from: int, len: int) -> bool {
    &&& forall|i: int|
        0 <= i < spans.len() ==> from <= #[trigger] spans[i].0 && spans[i].0 < spans[i].1
            && spans[i].1 <= len
    &&& forall|i: int, j: int|
        0 <= i < j < spans.len() ==> #[trigger] spans[i].1 <= #[trigger] spans[j].0
}

/// The candidates found from `from` on are ordered, non-empty and never
/// overlap.
pub proof fn lemma_candidate_spans_from_ordered(s: Seq<u8>, from: int)
    requires
        0 <= from,
    ensures
        spans_ordered(candidate_spans_from(s, from), from, s.len() as int),
    decreases s.len() - from,
{
    lemma_first_candidate_bounds(s, from);
    match first_candidate(s, from) {
        Some((a, b)) => {
            lemma_candidate_spans_from_ordered(s, b);
            let rest = candidate_spans_from(s, b);
            let all = candidate_spans_from(s, from);
            assert(all == seq![(a, b)] + rest);
            assert forall|i: int, j: int| 0 <= i < j < all.len() implies #[trigger] all[i].1
                <= #[trigger] all[j].0 by {
                assert(all[j] == rest[j - 1]);
                if i > 0 {
                    assert(all[i] == rest[i - 1]);
                }
            }
            assert forall|i: int| 0 <= i < all.len() implies from <= #[trigger] all[i].0
                && all[i].0 < all[i].1 && all[i].1 <= s.len() by {
                if i > 0 {
                    assert(all[i] == rest[i - 1]);
                }
            }
        },
        None => {},
    }
}

/// The candidates of a line are ordered, non-empty and never overlap: each
/// search resumes after the previous candidate, so no span is claimed twice.
pub proof fn lemma_candidate_spans_ordered(line: Seq<u8>)
    ensures
        spans_ordered(candidate_spans(line), 0, line.len() as int),
{
    lemma_candidate_spans_from_ordered(line, 0);
}

/// Emitting every span as its own bytes.
pub open spec fn verbatim() -> spec_fn(Seq<u8>) -> Seq<u8> {
    |c: Seq<u8>| c
}

/// The cursor walk covers the line: with ordered, non-overlapping spans, the
/// copied gaps and the span bytes, taken in cursor order, are the line from
/// the cursor on, with no gap and no byte twice.
pub proof fn lemma_span_coverage(line: Seq<u8>, spans: Seq<(int, int)>, cursor: int)
    requires
        0 <= cursor <= line.len(),
        spans_ordered(spans, cursor, line.len() as int),
    ensures
        substituted(line, spans, cursor, verbatim()) == line.subrange(cursor, line.len() as int),
    decreases spans.len(),
{
    if spans.len() == 0 {
        assert(line.subrange(line.len() as int, line.len() as int) =~= Seq::<u8>::empty());
    } else {
        let (s, e) = spans[0];
        let rest = spans.drop_first();
        assert forall|i: int| 0 <= i < rest.len() implies e <= #[trigger] rest[i].0 && rest[i].0
            < rest[i].1 && rest[i].1 <= line.len() by {
            assert(rest[i] == spans[i + 1]);
        }
        assert forall|i: int, j: int| 0 <= i < j < rest.len() implies #[trigger] rest[i].1
            <= #[trigger] rest[j].0 by {
            assert(rest[i] == spans[i + 1]);
            assert(rest[j] == spans[j + 1]);
        }
        lemma_span_coverage(line, rest, e);
        assert(gap(line, cursor, s) =~= line.subrange(cursor, s));
        assert(line.subrange(cursor, s) + line.subrange(s, e) + line.subrange(e, line.len() as int)
            =~= line.subrange(cursor, line.len() as int));
    }
}

/// The candidates of a line, emitted as their own bytes between the copied
/// gaps, give back the line.
pub proof fn lemma_line_coverage(line: Seq<u8>)
    ensures
        substituted(line, candidate_spans(line), 0, verbatim()) == line,
{
    lemma_candidate_spans_ordered(line);
    lemma_span_coverage(line, candidate_spans(line), 0);
    assert(line.subrange(0, line.len() as int) =~= line);
}

/// A line with no candidate is written unchanged, whatever the options.
pub proof fn lemma_no_candidates_unchanged(line: Seq<u8>, opts: Options)
    requires
        candidate_spans(line).len() == 0,
    ensures
        line_output(line, opts) == line,
{
    assert(line.subrange(0, line.len() as int) =~= line);
    assert(line.len() == 0 ==> line =~= Seq::<u8>::empty());
}

/// Where no `_ZN` or `_R` occurs from `from` on, there is no candidate there.
proof fn lemma_no_prefix_no_candidate(s: Seq<u8>, from: int)
    requires
        0 <= from,
        forall|p: int| from <= p < s.len() ==> prefix_len(s, p) == 0,
    ensures
        first_candidate(s, from) is None,
    decreases s.len() - from,
{
    if from < s.len() {
        lemma_no_prefix_no_candidate(s, from + 1);
    }
}

/// A line in which nothing has the shape `_ZN...` or `_R...` is written
/// unchanged, whatever the options.
pub proof fn lemma_no_pattern_unchanged(line: Seq<u8>, opts: Options)
    requires
        forall|p: int| 0 <= p < line.len() ==> prefix_len(line, p) == 0,
    ensures
        line_output(line, opts) == line,
{
    lemma_no_prefix_no_candidate(line, 0);
    lemma_no_candidates_unchanged(line, opts);
}

/// An input whose lines hold no candidate comes out byte for byte as it
/// went in, line terminators included.
pub proof fn lemma_no_candidates_stream(lines: Seq<Seq<u8>>, opts: Options)
    requires
        forall|i: int| 0 <= i < lines.len() ==> (#[trigger] candidate_spans(lines[i])).len() == 0,
    ensures
        lines.map_values(|l: Seq<u8>| line_output(l, opts)).flatten() == lines.flatten(),
    decreases lines.len(),
{
    let out = lines.map_values(|l: Seq<u8>| line_output(l, opts));
    if lines.len() > 0 {
        let rest = lines.drop_first();
        assert forall|i: int| 0 <= i < rest.len() implies (#[trigger] candidate_spans(
            rest[i],
        )).len() == 0 by {
            assert(rest[i] == lines[i + 1]);
        }
        lemma_no_candidates_stream(rest, opts);
        assert(out.drop_first() =~= rest.map_values(|l: Seq<u8>| line_output(l, opts)));
        assert(candidate_spans(lines[0]).len() == 0);
        lemma_no_candidates_unchanged(lines[0], opts);
    }
}

/// `opts` with escaping switched on or off.
pub open spec fn with_escape(opts: Options, escape: bool) -> Options {
    Options { escape, ..opts }
}

/// Escaping changes only how candidates are written, never which bytes are
/// candidates: with and without it the output is the same cursor walk over
/// the same candidates of the line, and each candidate's escaped rendering
/// is the HTML escaping of its plain rendering.
pub proof fn lemma_escape_keeps_spans(line: Seq<u8>, opts: Options)
    ensures
        line_output(line, with_escape(opts, true)) == substituted(
            line,
            candidate_spans(line),
            0,
            renderer(with_escape(opts, true)),
        ),
        line_output(line, with_escape(opts, false)) == substituted(
            line,
            candidate_spans(line),
            0,
            renderer(with_escape(opts, false)),
        ),
        forall|c: Seq<u8>|
            valid_utf8(c) ==> #[trigger] candidate_output(c, with_escape(opts, true))
                == encode_utf8(html_escaped(decode_utf8(candidate_output(c, with_escape(opts, false))))),
        forall|c: Seq<u8>|
            !valid_utf8(c) ==> #[trigger] candidate_output(c, with_escape(opts, true))
                == candidate_output(c, with_escape(opts, false)),
{
    assert forall|c: Seq<u8>| valid_utf8(c) implies #[trigger] candidate_output(
        c,
        with_escape(opts, true),
    ) == encode_utf8(html_escaped(decode_utf8(candidate_output(c, with_escape(opts, false))))) by {
        let plain = crate::render::rendered(decode_utf8(c), with_escape(opts, false));
        encode_utf8_decode_utf8(plain);
    }
}

/// A candidate that is not valid UTF-8 is written as exactly its own bytes.
pub proof fn lemma_invalid_candidate_kept(c: Seq<u8>, opts: Options)
    requires
        !valid_utf8(c),
    ensures
        renderer(opts)(c) == c,
{
}

/// A run of symbol bytes holds symbol bytes only.
proof fn lemma_run_symbol_bytes(s: Seq<u8>, q: int)
    requires
        0 <= q <= s.len(),
    ensures
        forall|i: int| q <= i < run_end(s, q) ==> is_symbol_byte(#[trigger] s[i]),
    decreases s.len() - q,
{
    if q < s.len() && is_symbol_byte(s[q]) {
        lemma_run_symbol_bytes(s, q + 1);
    }
}

/// The bytes of a candidate are ASCII.
proof fn lemma_first_candidate_ascii(s: Seq<u8>, from: int)
    requires
        0 <= from,
    ensures
        first_candidate(s, from) matches Some((a, b)) ==> forall|i: int|
            a <= i < b ==> #[trigger] s[i] <= 0x7f,
    decreases s.len() - from,
{
    if from < s.len() {
        if prefix_len(s, from) > 0 {
            lemma_run_end_bounds(s, from + prefix_len(s, from));
            lemma_run_symbol_bytes(s, from + prefix_len(s, from));
        } else {
            lemma_first_candidate_ascii(s, from + 1);
        }
    }
}

/// Bytes that are all ASCII are valid UTF-8.
proof fn lemma_ascii_valid(c: Seq<u8>)
    requires
        forall|i: int| 0 <= i < c.len() ==> #[trigger] c[i] <= 0x7f,
    ensures
        valid_utf8(c),
{
    assert(c.subrange(0, 0) =~= Seq::<u8>::empty());
    assert(partial_valid_utf8(c, 0));
    partial_valid_utf8_extend_ascii_block(c, 0, c.len() as int);
    assert(c.subrange(0, c.len() as int) =~= c);
}

/// Every candidate found from `from` on is valid UTF-8.
proof fn lemma_candidate_spans_from_text(s: Seq<u8>, from: int)
    requires
        0 <= from,
    ensures
        forall|k: int|
            0 <= k < candidate_spans_from(s, from).len() ==> valid_utf8(
                s.subrange(
                    (#[trigger] candidate_spans_from(s, from)[k]).0,
                    candidate_spans_from(s, from)[k].1,
                ),
            ),
    decreases s.len() - from,
{
    lemma_first_candidate_bounds(s, from);
    match first_candidate(s, from) {
        Some((a, b)) => {
            lemma_candidate_spans_from_text(s, b);
            lemma_first_candidate_ascii(s, from);
            let c = s.subrange(a, b);
            assert forall|i: int| 0 <= i < c.len() implies #[trigger] c[i] <= 0x7f by {
                assert(c[i] == s[a + i]);
            }
            lemma_ascii_valid(c);
            let all = candidate_spans_from(s, from);
            let rest = candidate_spans_from(s, b);
            assert forall|k: int| 0 <= k < all.len() implies valid_utf8(
                s.subrange((#[trigger] all[k]).0, all[k].1),
            ) by {
                if k > 0 {
                    assert(all[k] == rest[k - 1]);
                }
            }
        },
        None => {},
    }
}

/// Every candidate of a line is valid UTF-8, so each one is handed to the
/// demangler and none takes the pass-through path.
pub proof fn lemma_candidates_are_text(line: Seq<u8>)
    ensures
        forall|k: int|
            0 <= k < candidate_spans(line).len() ==> valid_utf8(
                line.subrange(
                    (#[trigger] candidate_spans(line)[k]).0,
                    candidate_spans(line)[k].1,
                ),
            ),
{
    lemma_candidate_spans_from_text(line, 0);
}

} // verus!
