use rdemangle::{
    finish_text, render_candidate, render_name, substitute, Filter, MatchSpan, Options,
    SymbolPattern,
};

const LEGACY: &str = "_ZN4core3fmt9Arguments6new_v117h0123456789abcdefE";
const GENERIC: &str =
    "_ZN38_$LT$core..option..Option$LT$T$GT$$GT$6unwrap18_MSG_FILE_LINE_COL17haf7cb8d5824ee659E";

fn all_options() -> Vec<Options> {
    let mut v = Vec::new();
    for include_hash in [false, true] {
        for escape in [false, true] {
            v.push(Options { include_hash, escape });
        }
    }
    v
}

fn run(opts: Options, line: &[u8]) -> Vec<u8> {
    Filter::new(opts).unwrap().process_line(line)
}

fn run_stream(opts: Options, lines: &[&[u8]]) -> Vec<u8> {
    let filter = Filter::new(opts).unwrap();
    let mut out = Vec::new();
    for line in lines {
        out.extend_from_slice(&filter.process_line(line));
    }
    out
}

#[test]
fn legacy_symbol_default_flags() {
    let line = format!("at {} here\n", LEGACY);
    let out = run(Options::default(), line.as_bytes());
    assert_eq!(out, b"at core::fmt::Arguments::new_v1 here\n".to_vec());
}

#[test]
fn legacy_symbol_with_hash() {
    let line = format!("at {} here\n", LEGACY);
    let opts = Options { include_hash: true, escape: false };
    let out = run(opts, line.as_bytes());
    assert_eq!(out, b"at core::fmt::Arguments::new_v1::h0123456789abcdef here\n".to_vec());
}

#[test]
fn generic_symbol_escaped() {
    let line = format!("in {}\n", GENERIC);
    let opts = Options { include_hash: false, escape: true };
    let out = run(opts, line.as_bytes());
    assert_eq!(
        out,
        b"in &lt;core::option::Option&lt;T&gt;&gt;::unwrap::_MSG_FILE_LINE_COL\n".to_vec()
    );
}

#[test]
fn generic_symbol_escaped_with_hash() {
    let opts = Options { include_hash: true, escape: true };
    let out = run(opts, GENERIC.as_bytes());
    assert_eq!(
        out,
        b"&lt;core::option::Option&lt;T&gt;&gt;::unwrap::_MSG_FILE_LINE_COL::haf7cb8d5824ee659"
            .to_vec()
    );
}

#[test]
fn generic_symbol_plain() {
    let out = run(Options::default(), GENERIC.as_bytes());
    assert_eq!(out, b"<core::option::Option<T>>::unwrap::_MSG_FILE_LINE_COL".to_vec());
}

#[test]
fn plain_text_unchanged_for_all_flags() {
    for opts in all_options() {
        assert_eq!(run(opts, b"hello world"), b"hello world".to_vec());
        assert_eq!(run(opts, b"hello world\n"), b"hello world\n".to_vec());
    }
}

#[test]
fn near_misses_unchanged_for_all_flags() {
    let line: &[u8] = b"price $5.00 <a&b> _Z _ZX R_ _r __ZM\r\n";
    for opts in all_options() {
        assert_eq!(run(opts, line), line.to_vec());
    }
}

#[test]
fn partial_final_line_is_processed() {
    let out = run_stream(Options::default(), &[b"first\n", b"tail _ZN3foo3barE"]);
    assert_eq!(out, b"first\ntail foo::bar".to_vec());
}

#[test]
fn stream_without_candidates_is_byte_identical() {
    let lines: [&[u8]; 4] = [b"one\n", b"\r\n", b"bad \xff\xfe bytes\n", b"last"];
    let input: Vec<u8> = lines.concat();
    for opts in all_options() {
        assert_eq!(run_stream(opts, &lines), input);
    }
}

#[test]
fn empty_line_gives_empty_output() {
    assert_eq!(run(Options::default(), b""), Vec::<u8>::new());
}

#[test]
fn v0_symbol_is_demangled() {
    let out = run(Options::default(), b"call _RNvC6_123foo3bar;\n");
    assert_eq!(out, b"call 123foo::bar;\n".to_vec());
}

#[test]
fn several_symbols_in_one_line() {
    let out = run(Options::default(), b"_ZN3fooE -> _RNvC6_123foo3bar (_ZN3foo3barE)");
    assert_eq!(out, b"foo -> 123foo::bar (foo::bar)".to_vec());
}

#[test]
fn spans_are_ordered_and_cover_the_line() {
    let pattern = SymbolPattern::new().unwrap();
    let line: &[u8] = b"x _ZN3fooE y _RNvC6_123foo3bar z _ZN3foo3barE.llvm.1\n";
    let spans = pattern.find_candidates(line);
    assert_eq!(
        spans,
        vec![
            MatchSpan { start: 2, end: 10 },
            MatchSpan { start: 13, end: 30 },
            MatchSpan { start: 33, end: 52 },
        ]
    );
    let mut rebuilt = Vec::new();
    let mut cursor = 0;
    for s in &spans {
        assert!(cursor <= s.start && s.start < s.end);
        rebuilt.extend_from_slice(&line[cursor..s.start]);
        rebuilt.extend_from_slice(&line[s.start..s.end]);
        cursor = s.end;
    }
    rebuilt.extend_from_slice(&line[cursor..]);
    assert_eq!(rebuilt, line.to_vec());
}

#[test]
fn greedy_run_absorbs_adjacent_candidate() {
    let pattern = SymbolPattern::new().unwrap();
    let spans = pattern.find_candidates(b"_ZN3fooE_ZN3barE x");
    assert_eq!(spans, vec![MatchSpan { start: 0, end: 16 }]);
}

#[test]
fn escape_does_not_change_spans() {
    let line = format!("a {} b {} c\n", GENERIC, LEGACY);
    let plain = run(Options::default(), line.as_bytes());
    let escaped = run(Options { include_hash: false, escape: true }, line.as_bytes());
    assert_eq!(plain, b"a <core::option::Option<T>>::unwrap::_MSG_FILE_LINE_COL b core::fmt::Arguments::new_v1 c\n".to_vec());
    assert_eq!(escaped, b"a &lt;core::option::Option&lt;T&gt;&gt;::unwrap::_MSG_FILE_LINE_COL b core::fmt::Arguments::new_v1 c\n".to_vec());
}

#[test]
fn invalid_candidate_bytes_pass_through() {
    let bytes: &[u8] = b"_R\xff\xfe";
    for opts in all_options() {
        assert_eq!(render_candidate(bytes, opts), bytes.to_vec());
    }
    let line: &[u8] = b"<_ZN\xffx>";
    let spans = [MatchSpan { start: 1, end: 6 }];
    let opts = Options { include_hash: false, escape: true };
    assert_eq!(substitute(line, &spans, opts), line.to_vec());
}

#[test]
fn fully_passed_span_is_skipped() {
    let line: &[u8] = b"abcdef";
    let spans = [MatchSpan { start: 0, end: 3 }, MatchSpan { start: 1, end: 3 }];
    assert_eq!(substitute(line, &spans, Options::default()), b"abcdef".to_vec());
    let spans = [MatchSpan { start: 0, end: 3 }, MatchSpan { start: 2, end: 5 }];
    assert_eq!(substitute(line, &spans, Options::default()), b"abccdef".to_vec());
}

#[test]
fn render_name_modes() {
    let name = "_ZN3foo17h05af221e174051e9E";
    assert_eq!(render_name(name, Options::default()), "foo");
    assert_eq!(
        render_name(name, Options { include_hash: true, escape: false }),
        "foo::h05af221e174051e9"
    );
    assert_eq!(render_name("a<b>&'\"/c", Options { include_hash: false, escape: true }),
        "a&lt;b&gt;&amp;&#x27;&quot;&#x2f;c");
}

#[test]
fn render_candidate_demangles_text() {
    let out = render_candidate(b"_ZN35Bar$LT$$u5b$u32$u3b$$u20$4$u5d$$GT$E", Options::default());
    assert_eq!(out, b"Bar<[u32; 4]>".to_vec());
    let out = render_candidate(
        b"_ZN35Bar$LT$$u5b$u32$u3b$$u20$4$u5d$$GT$E",
        Options { include_hash: false, escape: true },
    );
    assert_eq!(out, b"Bar&lt;[u32; 4]&gt;".to_vec());
}

#[test]
fn finish_text_escapes_only_when_asked() {
    let text = String::from("<core::option::Option<T>>::unwrap & 'x' \"y\" a/b");
    assert_eq!(finish_text(text.clone(), false), text);
    assert_eq!(
        finish_text(text, true),
        "&lt;core::option::Option&lt;T&gt;&gt;::unwrap &amp; &#x27;x&#x27; &quot;y&quot; a&#x2f;b"
    );
}
