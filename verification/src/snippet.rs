//! Helpers for showing a parse error in the source text: the error's name,
//! a hint for fixing it, and the span of text it points at.

use vstd::prelude::*;
use vstd::string::StringSliceAdditionalSpecFns;
use vstd::utf8::{encode_utf8, is_char_boundary};

use annotate_snippets::renderer::DecorStyle;
use annotate_snippets::{AnnotationKind, Level, Renderer, Snippet};

use crate::text::{join_strings, join_with, push_str, texts, to_owned_string};

verus! {

/// The kinds of errors that parsing a TTML document reports.
#[derive(Debug)]
pub enum ParseErrorKind {
    /// A malformed XML attribute.
    AttrError(String),
    /// An unknown or malformed entity reference (the reference).
    EntityError(String),
    /// A timestamp that cannot be parsed (the timestamp).
    InvalidTimestamp(String),
    /// A required attribute is missing.
    MissingAttribute(String),
    /// The document ended inside an element.
    UnexpectedEof,
    /// Any other XML syntax error.
    XmlError(String),
}

/// The name of an error kind.
pub open spec fn error_name(kind: ParseErrorKind) -> Seq<char> {
    match kind {
        ParseErrorKind::AttrError(_) => "AttrError"@,
        ParseErrorKind::EntityError(_) => "EntityError"@,
        ParseErrorKind::InvalidTimestamp(_) => "InvalidTimestamp"@,
        ParseErrorKind::MissingAttribute(_) => "MissingAttribute"@,
        ParseErrorKind::UnexpectedEof => "UnexpectedEof"@,
        ParseErrorKind::XmlError(_) => "XmlError"@,
    }
}

/// The name of an error kind (see `error_name`).
pub fn get_error_name(kind: &ParseErrorKind) -> (r: &'static str)
    ensures
        r@ == error_name(*kind),
{
    match kind {
        ParseErrorKind::AttrError(_) => "AttrError",
        ParseErrorKind::EntityError(_) => "EntityError",
        ParseErrorKind::InvalidTimestamp(_) => "InvalidTimestamp",
        ParseErrorKind::MissingAttribute(_) => "MissingAttribute",
        ParseErrorKind::UnexpectedEof => "UnexpectedEof",
        ParseErrorKind::XmlError(_) => "XmlError",
    }
}

/// The hint shown for an error kind.
pub open spec fn help_suggestion(kind: ParseErrorKind) -> Seq<char> {
    match kind {
        ParseErrorKind::AttrError(_) => "Please check that the XML attributes are correctly formatted"@,
        ParseErrorKind::EntityError(_) => "Check that the XML predefined entity references used are valid."@,
        ParseErrorKind::InvalidTimestamp(_) =>
            "The allowed timestamp format is 'hh:mm:ss.sss'; leading zeros may be omitted. For example, '1:03:36.120'."@,
        ParseErrorKind::MissingAttribute(_) => "Please check the log above and add the required attributes."@,
        ParseErrorKind::UnexpectedEof =>
            "Please ensure that all open tags (such as </tt> or </body>) are properly closed."@,
        ParseErrorKind::XmlError(_) => "Please check the file for XML syntax errors."@,
    }
}

/// The hint shown for an error kind (see `help_suggestion`).
pub fn get_help_suggestion(kind: &ParseErrorKind) -> (r: &'static str)
    ensures
        r@ == help_suggestion(*kind),
{
    match kind {
        ParseErrorKind::AttrError(_) => "Please check that the XML attributes are correctly formatted",
        ParseErrorKind::EntityError(_) => "Check that the XML predefined entity references used are valid.",
        ParseErrorKind::InvalidTimestamp(_) =>
            "The allowed timestamp format is 'hh:mm:ss.sss'; leading zeros may be omitted. For example, '1:03:36.120'.",
        ParseErrorKind::MissingAttribute(_) => "Please check the log above and add the required attributes.",
        ParseErrorKind::UnexpectedEof =>
            "Please ensure that all open tags (such as </tt> or </body>) are properly closed.",
        ParseErrorKind::XmlError(_) => "Please check the file for XML syntax errors.",
    }
}

/// The last position before `n` that holds byte `x`.
pub open spec fn last_index_before(b: Seq<u8>, x: u8, n: int) -> Option<int>
    decreases n,
{
    if n <= 0 {
        None
    } else if b[n - 1] == x {
        Some(n - 1)
    } else {
        last_index_before(b, x, n - 1)
    }
}

/// `last_index_before` finds a position below `n`.
pub proof fn lemma_last_index_bound(b: Seq<u8>, x: u8, n: int)
    ensures
        last_index_before(b, x, n) matches Some(i) ==> 0 <= i < n,
    decreases n,
{
    if n > 0 && b[n - 1] != x {
        lemma_last_index_bound(b, x, n - 1);
    }
}

/// Whether `t` occurs in `h` at position `p`.
pub open spec fn occurs_at(h: Seq<u8>, t: Seq<u8>, p: int) -> bool {
    0 <= p && p + t.len() <= h.len() && h.subrange(p, p + t.len()) == t
}

/// The last position below `n` where `t` occurs in `h`.
pub open spec fn last_occurrence_below(h: Seq<u8>, t: Seq<u8>, n: int) -> Option<int>
    decreases n,
{
    if n <= 0 {
        None
    } else if occurs_at(h, t, n - 1) {
        Some(n - 1)
    } else {
        last_occurrence_below(h, t, n - 1)
    }
}

/// `last_occurrence_below` finds an occurrence below `n`.
pub proof fn lemma_last_occurrence_bound(h: Seq<u8>, t: Seq<u8>, n: int)
    ensures
        last_occurrence_below(h, t, n) matches Some(m) ==> 0 <= m < n && occurs_at(h, t, m),
    decreases n,
{
    if n > 0 && !occurs_at(h, t, n - 1) {
        lemma_last_occurrence_bound(h, t, n - 1);
    }
}

/// The last position where `t` occurs in `h` (`str::rfind`).
pub open spec fn last_occurrence(h: Seq<u8>, t: Seq<u8>) -> Option<int> {
    if t.len() > h.len() {
        None
    } else {
        last_occurrence_below(h, t, h.len() - t.len() + 1)
    }
}

/// The text an error kind points at, if it names one.
pub open spec fn search_target(kind: ParseErrorKind) -> Option<Seq<u8>> {
    match kind {
        ParseErrorKind::InvalidTimestamp(s) => Some(encode_utf8(s@)),
        ParseErrorKind::EntityError(s) => Some(encode_utf8(s@)),
        _ => None,
    }
}

/// The byte span an error points at in the text with bytes `b`: the last
/// occurrence of the error's text between the start of its line and its
/// offset (clamped to the text), else the empty span at the offset.
pub open spec fn error_span(b: Seq<u8>, byte_offset: nat, kind: ParseErrorKind) -> (int, int) {
    let offset: int = if byte_offset < b.len() { byte_offset as int } else { b.len() as int };
    match search_target(kind) {
        Some(t) => {
            let line_start = match last_index_before(b, 10, offset) {
                Some(i) => i + 1,
                None => 0,
            };
            match last_occurrence(b.subrange(line_start, offset), t) {
                Some(m) => (line_start + m, line_start + m + t.len()),
                None => (offset, offset),
            }
        },
        None => (offset, offset),
    }
}

/// The last `'\n'` byte before `n`.
fn last_newline_before(b: &[u8], n: usize) -> (r: Option<usize>)
    requires
        n <= b@.len(),
    ensures
        match last_index_before(b@, 10, n as int) {
            Some(i) => r matches Some(j) && j == i,
            None => r is None,
        },
        r matches Some(i) ==> i < n,
{
    let mut k = n;
    while k > 0
        invariant
            k <= n <= b@.len(),
            last_index_before(b@, 10, n as int) == last_index_before(b@, 10, k as int),
        decreases k,
    {
        proof {
            lemma_last_index_bound(b@, 10, k as int);
        }
        if b[k - 1] == 10u8 {
            return Some(k - 1);
        }
        k = k - 1;
    }
    None
}

/// Whether `t` occurs in `b` at `lo + p`, the occurrence lying below `hi`.
fn occurs_in(b: &[u8], lo: usize, hi: usize, t: &[u8], p: usize) -> (r: bool)
    requires
        lo <= hi <= b@.len(),
    ensures
        r == occurs_at(b@.subrange(lo as int, hi as int), t@, p as int),
{
    if p > hi - lo || t.len() > hi - lo - p {
        return false;
    }
    let mut k: usize = 0;
    while k < t.len()
        invariant
            lo <= hi <= b@.len(),
            p + t@.len() <= hi - lo,
            k <= t@.len(),
            forall|j: int| 0 <= j < k ==> b@[lo + p + j] == t@[j],
        decreases t@.len() - k,
    {
        if b[lo + p + k] != t[k] {
            assert(b@.subrange(lo as int, hi as int).subrange(p as int, p + t@.len())[k as int] != t@[k as int]);
            return false;
        }
        k = k + 1;
    }
    assert(b@.subrange(lo as int, hi as int).subrange(p as int, p + t@.len()) =~= t@);
    true
}

/// The last occurrence of `t` in `b[lo..hi]`, relative to `lo`.
fn last_occurrence_in(b: &[u8], lo: usize, hi: usize, t: &[u8]) -> (r: Option<usize>)
    requires
        lo <= hi <= b@.len(),
    ensures
        match last_occurrence(b@.subrange(lo as int, hi as int), t@) {
            Some(m) => r matches Some(j) && j == m,
            None => r is None,
        },
        r matches Some(m) ==> m + t@.len() <= hi - lo,
{
    let ghost h = b@.subrange(lo as int, hi as int);
    proof {
        lemma_last_occurrence_bound(h, t@, h.len() - t@.len() + 1);
    }
    if t.len() > hi - lo {
        return None;
    }
    let mut p: usize = hi - lo - t.len();
    loop
        invariant
            lo <= hi <= b@.len(),
            h == b@.subrange(lo as int, hi as int),
            t@.len() <= h.len(),
            p <= h.len() - t@.len(),
            last_occurrence(h, t@) == last_occurrence_below(h, t@, p + 1),
        decreases p,
    {
        if occurs_in(b, lo, hi, t, p) {
            assert(last_occurrence_below(h, t@, p + 1) == Some(p as int));
            return Some(p);
        }
        assert(last_occurrence_below(h, t@, p + 1) == last_occurrence_below(h, t@, p as int));
        if p == 0 {
            return None;
        }
        p = p - 1;
    }
}

/// The byte span a parse error points at in `raw_text` (see `error_span`).
/// The offset, clamped to the text, lies on a character boundary.
pub fn calculate_span(raw_text: &str, byte_offset: u64, kind: &ParseErrorKind) -> (r: (usize, usize))
    requires
        is_char_boundary(
            raw_text.spec_bytes(),
            if byte_offset < raw_text.spec_bytes().len() {
                byte_offset as int
            } else {
                raw_text.spec_bytes().len() as int
            },
        ),
    ensures
        r.0 == error_span(raw_text.spec_bytes(), byte_offset as nat, *kind).0,
        r.1 == error_span(raw_text.spec_bytes(), byte_offset as nat, *kind).1,
{
    let b = raw_text.as_bytes();
    let offset: usize = if byte_offset < b.len() as u64 {
        byte_offset as usize
    } else {
        b.len()
    };
    let target: Option<&str> = match kind {
        ParseErrorKind::InvalidTimestamp(s) => Some(s.as_str()),
        ParseErrorKind::EntityError(s) => Some(s.as_str()),
        _ => None,
    };
    assert(target is None <==> search_target(*kind) is None);
    assert(target matches Some(t) ==> search_target(*kind) == Some(t.spec_bytes()));
    match target {
        Some(t) => {
            let line_start = match last_newline_before(b, offset) {
                Some(i) => i + 1,
                None => 0,
            };
            let tb = t.as_bytes();
            assert(search_target(*kind) == Some(tb@));
            let ghost sb = raw_text.spec_bytes();
            let ghost off: int = if byte_offset < sb.len() { byte_offset as int } else { sb.len() as int };
            assert(off == offset);
            let ghost ls = match last_index_before(sb, 10, off) {
                Some(i) => i + 1,
                None => 0,
            };
            assert(ls == line_start);
            match last_occurrence_in(b, line_start, offset, tb) {
                Some(m) => {
                    let absolute_start = line_start + m;
                    assert(error_span(sb, byte_offset as nat, *kind) == (ls + m, ls + m + tb@.len()));
                    (absolute_start, absolute_start + tb.len())
                },
                None => {
                    assert(error_span(sb, byte_offset as nat, *kind) == (off, off));
                    (offset, offset)
                },
            }
        },
        None => (offset, offset),
    }
}

// ---------------------------------------------------------------------------
// Rendering
// ---------------------------------------------------------------------------

/// The message of an error kind.
pub open spec fn kind_message(kind: ParseErrorKind) -> Seq<char> {
    match kind {
        ParseErrorKind::AttrError(s) => "Attribute error: "@ + s@,
        ParseErrorKind::EntityError(s) => "Unknown or malformed entity: "@ + s@,
        ParseErrorKind::InvalidTimestamp(s) => "Invalid timestamp format: "@ + s@,
        ParseErrorKind::MissingAttribute(s) => "Missing attribute: "@ + s@,
        ParseErrorKind::UnexpectedEof => "Unexpected end of file"@,
        ParseErrorKind::XmlError(s) => "XML error: "@ + s@,
    }
}

impl ParseErrorKind {
    /// The message of the error kind (see `kind_message`).
    pub fn message(&self) -> (r: String)
        ensures
            r@ == kind_message(*self),
    {
        let (prefix, detail): (&str, Option<&String>) = match self {
            ParseErrorKind::AttrError(s) => ("Attribute error: ", Some(s)),
            ParseErrorKind::EntityError(s) => ("Unknown or malformed entity: ", Some(s)),
            ParseErrorKind::InvalidTimestamp(s) => ("Invalid timestamp format: ", Some(s)),
            ParseErrorKind::MissingAttribute(s) => ("Missing attribute: ", Some(s)),
            ParseErrorKind::UnexpectedEof => ("Unexpected end of file", None),
            ParseErrorKind::XmlError(s) => ("XML error: ", Some(s)),
        };
        let mut out = to_owned_string(prefix);
        match detail {
            Some(d) => push_str(&mut out, d.as_str()),
            None => {},
        }
        out
    }
}

/// Where in the document a parse error happened.
#[derive(Debug)]
pub struct ParseErrorContext {
    /// The byte offset of the reader when the error was found.
    pub byte_offset: u64,
    /// The names of the open elements, outermost first.
    pub tag_stack: Vec<String>,
}

/// An error of reading a lyric document.
#[derive(Debug)]
pub enum TTMLProcessorError {
    /// The document could not be parsed.
    ParseError { kind: ParseErrorKind, context: ParseErrorContext },
    /// Any other error, with its message.
    Other(String),
}

/// The text `annotate_snippets` renders for an error report titled `title`
/// with id `id`, showing `source` (named `path`) with the bytes
/// `start..end` marked and labelled `id`, followed by a note and a help line.
pub uninterp spec fn rendered_report(
    title: Seq<char>,
    id: Seq<char>,
    source: Seq<char>,
    path: Seq<char>,
    start: nat,
    end: nat,
    note: Seq<char>,
    help: Seq<char>,
) -> Seq<char>;

/// `annotate_snippets::Renderer::render`, plain and with Unicode
/// decoration, of one error group as described at `rendered_report`; the
/// text is that function of the arguments. The marked span must be ordered
/// and lie on character boundaries of the source, which the renderer slices
/// at.
#[verifier::external_body]
fn render_report(title: &str, id: &str, source: &str, path: &str, start: usize, end: usize, note: &str, help: &str) -> (r: String)
    requires
        start <= end,
        is_char_boundary(source.spec_bytes(), start as int),
        is_char_boundary(source.spec_bytes(), end as int),
    ensures
        r@ == rendered_report(title@, id@, source@, path@, start as nat, end as nat, note@, help@),
{
    let snippet = Snippet::source(source).path(path).annotation(AnnotationKind::Primary.span(start..end).label(id));
    let group = Level::ERROR.primary_title(title).id(id).element(snippet).element(Level::NOTE.message(note)).element(
        Level::HELP.message(help),
    );
    Renderer::plain().decor_style(DecorStyle::Unicode).render(&[group])
}

/// The offset of an error, clamped to the text with bytes `b`.
pub open spec fn clamped_offset(b: Seq<u8>, byte_offset: nat) -> int {
    if byte_offset < b.len() {
        byte_offset as int
    } else {
        b.len() as int
    }
}

/// The span marked when rendering: the error's span (see `error_span`), or
/// the empty span at its offset should that not lie on character boundaries.
pub open spec fn marked_span(b: Seq<u8>, byte_offset: nat, kind: ParseErrorKind) -> (int, int) {
    let (s, e) = error_span(b, byte_offset, kind);
    if s <= e && is_char_boundary(b, s) && is_char_boundary(b, e) {
        (s, e)
    } else {
        (clamped_offset(b, byte_offset), clamped_offset(b, byte_offset))
    }
}

/// A parse error rendered as a report on the source text: its message as
/// title, its name as id, the span it points at marked (see
/// `marked_span`), the stack of open elements as a note and a hint as help.
/// Any other error is its message.
pub fn render_parse_error(error: &TTMLProcessorError, raw_text: &str, file_name: &str) -> (r: String)
    requires
        error matches TTMLProcessorError::ParseError { context, .. } ==> is_char_boundary(
            raw_text.spec_bytes(),
            clamped_offset(raw_text.spec_bytes(), context.byte_offset as nat),
        ),
    ensures
        match error {
            TTMLProcessorError::ParseError { kind, context } => {
                let (s, e) = marked_span(raw_text.spec_bytes(), context.byte_offset as nat, *kind);
                r@ == rendered_report(
                    kind_message(*kind),
                    error_name(*kind),
                    raw_text@,
                    file_name@,
                    s as nat,
                    e as nat,
                    "Tag stack: "@ + join_with(texts(context.tag_stack@), " > "@),
                    help_suggestion(*kind),
                )
            },
            TTMLProcessorError::Other(m) => r@ == m@,
        },
{
    match error {
        TTMLProcessorError::ParseError { kind, context } => {
            let (start, end) = calculate_span(raw_text, context.byte_offset, kind);
            let text_len = raw_text.as_bytes().len();
            let offset: usize = if context.byte_offset < text_len as u64 {
                context.byte_offset as usize
            } else {
                text_len
            };
            proof {
                vstd::utf8::encode_utf8_valid_utf8(raw_text@);
            }
            let fits = start <= end && raw_text.is_char_boundary(start) && raw_text.is_char_boundary(end);
            let s = if fits { start } else { offset };
            let e = if fits { end } else { offset };

            let id_name = get_error_name(kind);
            let title = kind.message();
            let mut note = to_owned_string("Tag stack: ");
            let stack = join_strings(&context.tag_stack, " > ");
            push_str(&mut note, stack.as_str());
            render_report(
                title.as_str(),
                id_name,
                raw_text,
                file_name,
                s,
                e,
                note.as_str(),
                get_help_suggestion(kind),
            )
        },
        TTMLProcessorError::Other(m) => to_owned_string(m.as_str()),
    }
}

} // verus!
