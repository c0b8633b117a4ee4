//! The substitution engine: walks a line's spans with a cursor, copies the
//! bytes between them and writes each span's rendering.
use crate::pattern::{candidate_spans, span_pairs, MatchSpan, PatternError, SymbolPattern};
use crate::render::{candidate_output, render_candidate, Options};
use vstd::prelude::*;
use vstd::slice::slice_subrange;

verus! {

/// The rendering of every candidate under `opts`.
pub open spec fn renderer(opts: Options) -> spec_fn(Seq<u8>) -> Seq<u8> {
    |c: Seq<u8>| candidate_output(c, opts)
}

/// The bytes between the cursor and a span's start; nothing where the
/// cursor has reached the start already.
pub open spec fn gap(line: Seq<u8>, cursor: int, start: int) -> Seq<u8> {
    if cursor < start {
        line.subrange(cursor, start)
    } else {
        seq![]
    }
}

/// What the cursor walk writes for `line` from `cursor` on: for each span
/// the cursor has not passed, the gap before it and the span's rendering,
/// after which the cursor stands at the span's end; a span that ends at or
/// before the cursor writes nothing. The rest of the line follows the last
/// span.
pub open spec fn substituted(
    line: Seq<u8>,
    spans: Seq<(int, int)>,
    cursor: int,
    render: spec_fn(Seq<u8>) -> Seq<u8>,
) -> Seq<u8>
    decreases spans.len(),
{
    if spans.len() == 0 {
        gap(line, cursor, line.len() as int)
    } else if cursor >= spans[0].1 {
        substituted(line, spans.drop_first(), cursor, render)
    } else {
        gap(line, cursor, spans[0].0) + render(line.subrange(spans[0].0, spans[0].1))
            + substituted(line, spans.drop_first(), spans[0].1, render)
    }
}

/// What the filter writes for one line.
pub open spec fn line_output(line: Seq<u8>, opts: Options) -> Seq<u8> {
    substituted(line, candidate_spans(line), 0, renderer(opts))
}

/// Every span lies within a line of length `len`.
pub open spec fn spans_within(spans: Seq<MatchSpan>, len: int) -> bool {
    forall|i: int|
        0 <= i < spans.len() ==> #[trigger] spans[i].start <= spans[i].end && spans[i].end <= len
}

/// Appends `src[from..to]` to `out`.
fn push_range(out: &mut Vec<u8>, src: &[u8], from: usize, to: usize)
    requires
        from <= to <= src@.len(),
    ensures
        final(out)@ == old(out)@ + src@.subrange(from as int, to as int),
{
    let mut k: usize = from;
    while k < to
        invariant
            from <= k <= to <= src@.len(),
            out@ == old(out)@ + src@.subrange(from as int, k as int),
        decreases to - k,
    {
        out.push(src[k]);
        proof {
            assert(src@.subrange(from as int, k + 1) =~= src@.subrange(from as int, k as int)
                + seq![src@[k as int]]);
        }
        k = k + 1;
    }
}

/// Writes `line` with each span replaced by its rendering and every other
/// byte copied, in order. A span that ends at or before the cursor is
/// skipped; a span that only partly overlaps the bytes already written is
/// rendered whole, so with ordered, non-overlapping spans (as the scanner
/// gives) no byte is written twice.
pub fn substitute(line: &[u8], spans: &[MatchSpan], opts: Options) -> (r: Vec<u8>)
    requires
        spans_within(spans@, line@.len() as int),
    ensures
        r@ == substituted(line@, span_pairs(spans@), 0, renderer(opts)),
{
    let ghost all = span_pairs(spans@);
    let ghost total = substituted(line@, all, 0, renderer(opts));
    let mut out: Vec<u8> = Vec::new();
    let mut cursor: usize = 0;
    let mut i: usize = 0;
    proof {
        assert(all.skip(0) =~= all);
    }
    while i < spans.len()
        invariant
            spans_within(spans@, line@.len() as int),
            all == span_pairs(spans@),
            total == substituted(line@, all, 0, renderer(opts)),
            i <= spans@.len(),
            cursor <= line@.len(),
            out@ + substituted(line@, all.skip(i as int), cursor as int, renderer(opts)) == total,
        decreases spans@.len() - i,
    {
        let span = spans[i];
        let ghost before = out@;
        proof {
            assert(spans@[i as int].start <= spans@[i as int].end);
            assert(all.skip(i as int)[0] == (span.start as int, span.end as int));
            assert(all.skip(i as int).drop_first() =~= all.skip(i + 1));
        }
        if cursor < span.end {
            if cursor < span.start {
                push_range(&mut out, line, cursor, span.start);
            }
            let piece = render_candidate(slice_subrange(line, span.start, span.end), opts);
            push_range(&mut out, piece.as_slice(), 0, piece.len());
            proof {
                assert(piece@.subrange(0, piece@.len() as int) =~= piece@);
                assert(out@ == before + gap(line@, cursor as int, span.start as int)
                    + renderer(opts)(line@.subrange(span.start as int, span.end as int)));
            }
            cursor = span.end;
        }
        i = i + 1;
    }
    if cursor < line.len() {
        push_range(&mut out, line, cursor, line.len());
    }
    proof {
        assert(all.skip(i as int) =~= Seq::<(int, int)>::empty());
        assert(out@ =~= total);
    }
    out
}

/// The pattern and the options of one filtering run.
pub struct Filter {
    pub pattern: SymbolPattern,
    pub options: Options,
}

impl Filter {
    /// Builds a filter with the given options.
    pub fn new(options: Options) -> (r: Result<Filter, PatternError>)
        ensures
            r is Ok,
            r matches Ok(f) ==> f.options == options,
    {
        match SymbolPattern::new() {
            Ok(pattern) => Ok(Filter { pattern, options }),
            Err(e) => Err(e),
        }
    }

    /// The output for one line: every candidate replaced by its rendering,
    /// every other byte, terminator included, copied unchanged.
    pub fn process_line(&self, line: &[u8]) -> (r: Vec<u8>)
        ensures
            r@ == line_output(line@, self.options),
    {
        let spans = self.pattern.find_candidates(line);
        proof {
            crate::laws::lemma_candidate_spans_ordered(line@);
            assert forall|i: int| 0 <= i < spans@.len() implies #[trigger] spans@[i].start
                <= spans@[i].end && spans@[i].end <= line@.len() by {
                assert(span_pairs(spans@)[i] == (spans@[i].start as int, spans@[i].end as int));
                assert(0 <= candidate_spans(line@)[i].0);
            }
        }
        substitute(line, spans.as_slice(), self.options)
    }
}

} // verus!
