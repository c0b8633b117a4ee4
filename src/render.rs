//! Rendering of one candidate: demangling, the hash suffix, and HTML
//! escaping.
use bstr::ByteSlice;
use rustc_demangle::demangle;
use vstd::prelude::*;
use vstd::slice::slice_to_vec;
use vstd::string::StringSliceAdditionalSpecFns;
use vstd::utf8::{decode_utf8, encode_utf8, encode_utf8_decode_utf8, valid_utf8};

verus! {

/// How a demangled name is written.
#[derive(Clone, Copy, Debug, PartialEq, Eq, Default)]
pub struct Options {
    /// Keep the hash or disambiguator suffix.
    pub include_hash: bool,
    /// HTML-escape the rendered name.
    pub escape: bool,
}

/// The demangled name with its hash suffix hidden.
pub uninterp spec fn compact_form(name: Seq<char>) -> Seq<char>;

/// The demangled name with its hash suffix.
pub uninterp spec fn full_form(name: Seq<char>) -> Seq<char>;

/// What HTML escaping writes for one character.
pub open spec fn escaped_char(c: char) -> Seq<char> {
    if c == '"' {
        seq!['&', 'q', 'u', 'o', 't', ';']
    } else if c == '&' {
        seq!['&', 'a', 'm', 'p', ';']
    } else if c == '\'' {
        seq!['&', '#', 'x', '2', '7', ';']
    } else if c == '/' {
        seq!['&', '#', 'x', '2', 'f', ';']
    } else if c == '<' {
        seq!['&', 'l', 't', ';']
    } else if c == '>' {
        seq!['&', 'g', 't', ';']
    } else {
        seq![c]
    }
}

/// HTML escaping of a text, one character at a time.
pub open spec fn html_escaped(s: Seq<char>) -> Seq<char>
    decreases s.len(),
{
    if s.len() == 0 {
        seq![]
    } else {
        html_escaped(s.drop_last()) + escaped_char(s.last())
    }
}

/// The text written for a name that was taken from a candidate.
pub open spec fn rendered(name: Seq<char>, opts: Options) -> Seq<char> {
    let base = if opts.include_hash {
        full_form(name)
    } else {
        compact_form(name)
    };
    if opts.escape {
        html_escaped(base)
    } else {
        base
    }
}

/// The bytes written in place of a candidate: its rendering where it is
/// valid UTF-8, else the candidate itself.
pub open spec fn candidate_output(c: Seq<u8>, opts: Options) -> Seq<u8> {
    if valid_utf8(c) {
        encode_utf8(rendered(decode_utf8(c), opts))
    } else {
        c
    }
}

/// Relies on rustc_demangle::demangle, written with `{:#}`: the demangled
/// name without its hash suffix, or the text itself where it is not a
/// mangled name.
#[verifier::external_body]
fn demangle_compact(name: &str) -> (r: String)
    ensures
        r@ == compact_form(name@),
{
    format!("{:#}", demangle(name))
}

/// Relies on rustc_demangle::demangle, written with `{}`: the demangled name
/// with its hash suffix, or the text itself where it is not a mangled name.
#[verifier::external_body]
fn demangle_full(name: &str) -> (r: String)
    ensures
        r@ == full_form(name@),
{
    format!("{}", demangle(name))
}

/// Relies on v_htmlescape's `Display` for `VHtmlescape`: each of `"`, `&`,
/// `'`, `/`, `<`, `>` becomes its entity, every other byte is copied.
#[verifier::external_body]
fn html_escape(text: &str) -> (r: String)
    ensures
        r@ == html_escaped(text@),
{
    format!("{}", v_htmlescape::VHtmlescape::new(text.as_bytes()))
}

/// Relies on bstr's `ByteSlice::to_str`: the bytes as text exactly when they
/// are valid UTF-8.
#[verifier::external_body]
fn utf8_text(bytes: &[u8]) -> (r: Option<&str>)
    ensures
        r is Some <==> valid_utf8(bytes@),
        r matches Some(t) ==> t.spec_bytes() == bytes@,
{
    bytes.to_str().ok()
}

/// HTML-escapes a demangled text where `escape` is set, else hands it back.
pub fn finish_text(text: String, escape: bool) -> (r: String)
    ensures
        r@ == (if escape {
            html_escaped(text@)
        } else {
            text@
        }),
{
    if escape {
        html_escape(text.as_str())
    } else {
        text
    }
}

/// Writes a name as `opts` asks: compact or with its hash, then escaped or
/// not.
pub fn render_name(name: &str, opts: Options) -> (r: String)
    ensures
        r@ == rendered(name@, opts),
{
    let base = if opts.include_hash {
        demangle_full(name)
    } else {
        demangle_compact(name)
    };
    finish_text(base, opts.escape)
}

/// The bytes that replace one candidate. A candidate that is not valid UTF-8
/// comes back unchanged.
pub fn render_candidate(candidate: &[u8], opts: Options) -> (r: Vec<u8>)
    ensures
        r@ == candidate_output(candidate@, opts),
        !valid_utf8(candidate@) ==> r@ == candidate@,
{
    match utf8_text(candidate) {
        Some(text) => {
            proof {
                encode_utf8_decode_utf8(text@);
            }
            let s = render_name(text, opts);
            slice_to_vec(s.as_str().as_bytes())
        },
        None => slice_to_vec(candidate),
    }
}

} // verus!
