//! The TTML lyric parser: a state machine driven by the events of an XML
//! reader. It is meant for the TTML lyrics of Apple Music and AMLL, not for
//! TTML subtitles in general.

use vstd::prelude::*;

use crate::metadata::{lowercase, raw_view};
use crate::text::{
    all_ws, chars_of, clean_parens, clean_parentheses_from_bg_text_into, is_blank, is_whitespace, is_ws,
    normalize_text_whitespace_into, normalize_ws, push_char, push_decimal, push_escaped, push_str, str_eq, text_is_empty, texts,
    to_owned_string, trim, trim_string,
};
use crate::time::parse_ttml_time_to_ms;
use crate::types::{
    opt_text, Agent, AgentStore, AgentType, AgentView, AnnotatedTrack, ContentType, ConvertError, LyricFormat, LyricLine,
    LyricSyllable, LyricTrack, ParsedSourceData, TrackMetadataKey, TtmlParsingOptions, TtmlTimingMode, Word,
};
use crate::xml::{
    error_position, read_element_text, read_xml_event, xml_event_at, xml_reader, xml_text_at, xml_text_fails, ReadOp, XmlEvent,
    XmlReadError, XmlSource,
};

verus! {

// ---------------------------------------------------------------------------
// Parser state
// ---------------------------------------------------------------------------

/// Whether the document was written with indentation and line breaks.
#[derive(Debug, Clone, Copy, PartialEq, Eq, Structural)]
pub enum FormatDetection {
    /// Not decided yet.
    Undetermined,
    /// Formatted.
    IsFormatted,
    /// Compact.
    NotFormatted,
}

/// The kind of an auxiliary track declared in the head.
#[derive(Debug, Clone, Copy, PartialEq, Eq, Structural)]
pub enum AuxTrackType {
    /// A translation.
    Translation,
    /// A transliteration (romanisation).
    Romanization,
}

/// Where in `<metadata>` the parser is.
#[derive(Debug)]
pub enum MetadataContext {
    /// Outside any element of interest.
    Outside,
    /// Inside `<ttm:agent>` with the given id.
    InAgent { id: Option<String> },
    /// Inside `<iTunesMetadata>`.
    InITunesMetadata,
    /// Inside `<songwriter>`.
    InSongwriter,
    /// Inside `<translations>` or `<transliterations>`.
    InAuxiliaryContainer { aux_type: AuxTrackType },
    /// Inside `<translation>` or `<transliteration>`.
    InAuxiliaryEntry { aux_type: AuxTrackType, lang: Option<String> },
    /// Inside `<text>`.
    InAuxiliaryText { aux_type: AuxTrackType, lang: Option<String>, key: Option<String> },
}

/// A metadata context by the views of its texts.
pub enum ContextView {
    Outside,
    InAgent(Option<Seq<char>>),
    InITunesMetadata,
    InSongwriter,
    InAuxiliaryContainer(AuxTrackType),
    InAuxiliaryEntry(AuxTrackType, Option<Seq<char>>),
    InAuxiliaryText(AuxTrackType, Option<Seq<char>>, Option<Seq<char>>),
}

impl View for MetadataContext {
    type V = ContextView;

    open spec fn view(&self) -> ContextView {
        match self {
            MetadataContext::Outside => ContextView::Outside,
            MetadataContext::InAgent { id } => ContextView::InAgent(opt_text(*id)),
            MetadataContext::InITunesMetadata => ContextView::InITunesMetadata,
            MetadataContext::InSongwriter => ContextView::InSongwriter,
            MetadataContext::InAuxiliaryContainer { aux_type } => ContextView::InAuxiliaryContainer(*aux_type),
            MetadataContext::InAuxiliaryEntry { aux_type, lang } => ContextView::InAuxiliaryEntry(
                *aux_type,
                opt_text(*lang),
            ),
            MetadataContext::InAuxiliaryText { aux_type, lang, key } => ContextView::InAuxiliaryText(
                *aux_type,
                opt_text(*lang),
                opt_text(*key),
            ),
        }
    }
}

/// The role of a `<span>`.
#[derive(Debug, Clone, Copy, PartialEq, Eq, Structural)]
pub enum SpanRole {
    /// A syllable.
    Generic,
    /// A translation.
    Translation,
    /// A romanisation.
    Romanization,
    /// A container of background vocals.
    Background,
}

/// What ended last in a `<p>`: whether a syllable, and of which kind.
#[derive(Debug, Clone, Copy, PartialEq, Eq, Structural)]
pub enum LastSyllableInfo {
    /// No syllable (or something else since).
    Nothing,
    /// A syllable of the background vocals, or of the main vocals.
    EndedSyllable { was_background: bool },
}

/// The context of an open `<span>`.
#[derive(Debug)]
pub struct SpanContext {
    pub role: SpanRole,
    pub lang: Option<String>,
    pub scheme: Option<String>,
    pub start_ms: Option<u64>,
    pub end_ms: Option<u64>,
}

/// The translated text of a line, as declared in the head.
#[derive(Debug)]
pub struct LineTranslation {
    pub main: Option<String>,
    pub background: Option<String>,
}

/// Timed translation and romanisation tracks.
#[derive(Debug)]
pub struct AuxiliaryTrackSet {
    pub translations: Vec<LyricTrack>,
    pub romanizations: Vec<LyricTrack>,
}

/// The timed auxiliary tracks of a line, for the main and the background
/// vocals.
#[derive(Debug)]
pub struct DetailedAuxiliaryTracks {
    pub main_tracks: AuxiliaryTrackSet,
    pub background_tracks: AuxiliaryTrackSet,
}

/// The state of parsing `<metadata>`.
#[derive(Debug)]
pub struct MetadataParseState {
    /// Line translations by line key, with their language.
    pub line_translation_map: Vec<(String, LineTranslation, Option<String>)>,
    /// Timed auxiliary tracks by line key.
    pub timed_track_map: Vec<(String, DetailedAuxiliaryTracks)>,
    pub context: MetadataContext,
    pub current_main_syllables: Vec<LyricSyllable>,
    pub current_bg_syllables: Vec<LyricSyllable>,
    pub current_main_plain_text: String,
    pub current_bg_plain_text: String,
    pub span_stack: Vec<SpanContext>,
    pub text_buffer: String,
}

/// The data of the `<p>` being parsed.
#[derive(Debug)]
pub struct CurrentPElementData {
    pub start_ms: u64,
    pub end_ms: u64,
    pub agent: Option<String>,
    pub song_part: Option<String>,
    pub itunes_key: Option<String>,
    /// The text of the line when it is timed by line.
    pub line_text_accumulator: String,
    /// The annotated tracks gathered so far.
    pub tracks_accumulator: Vec<AnnotatedTrack>,
}

/// The state of parsing `<body>` and `<p>`.
#[derive(Debug)]
pub struct BodyParseState {
    pub in_body: bool,
    pub in_div: bool,
    pub in_p: bool,
    /// The song part of the current `<div>`, inherited by its `<p>`s.
    pub current_div_song_part: Option<String>,
    pub current_p_element_data: Option<CurrentPElementData>,
    pub span_stack: Vec<SpanContext>,
    pub last_syllable_info: LastSyllableInfo,
}

/// The whole state of the parser.
#[derive(Debug)]
pub struct TtmlParserState {
    pub is_line_timing_mode: bool,
    pub detected_line_mode: bool,
    pub format_detection: FormatDetection,
    pub whitespace_nodes_with_newline: u32,
    pub total_nodes_processed: u32,
    pub default_main_lang: Option<String>,
    pub default_translation_lang: Option<String>,
    pub default_romanization_lang: Option<String>,
    pub text_buffer: String,
    pub text_processing_buffer: String,
    pub in_metadata: bool,
    pub metadata_state: MetadataParseState,
    pub body_state: BodyParseState,
    pub agent_store: AgentStore,
    pub agent_counter: u32,
    /// Ids made up for agents named directly in a `<p>`, by name.
    pub agent_name_to_id_map: Vec<(String, String)>,
}

/// A metadata state with nothing gathered, outside any element.
pub open spec fn fresh_metadata_state(m: MetadataParseState) -> bool {
    &&& m.line_translation_map@.len() == 0
    &&& m.timed_track_map@.len() == 0
    &&& m.context is Outside
    &&& m.current_main_syllables@.len() == 0
    &&& m.current_bg_syllables@.len() == 0
    &&& m.current_main_plain_text@.len() == 0
    &&& m.current_bg_plain_text@.len() == 0
    &&& m.span_stack@.len() == 0
    &&& m.text_buffer@.len() == 0
}

/// A body state outside `<body>`.
pub open spec fn fresh_body_state(b: BodyParseState) -> bool {
    &&& !b.in_body
    &&& !b.in_div
    &&& !b.in_p
    &&& b.current_div_song_part is None
    &&& b.current_p_element_data is None
    &&& b.span_stack@.len() == 0
    &&& b.last_syllable_info == LastSyllableInfo::Nothing
}

impl MetadataParseState {
    /// A state with nothing gathered.
    pub fn new() -> (r: Self)
        ensures
            fresh_metadata_state(r),
    {
        MetadataParseState {
            line_translation_map: Vec::new(),
            timed_track_map: Vec::new(),
            context: MetadataContext::Outside,
            current_main_syllables: Vec::new(),
            current_bg_syllables: Vec::new(),
            current_main_plain_text: String::new(),
            current_bg_plain_text: String::new(),
            span_stack: Vec::new(),
            text_buffer: String::new(),
        }
    }
}

impl BodyParseState {
    /// A state outside `<body>`.
    pub fn new() -> (r: Self)
        ensures
            fresh_body_state(r),
    {
        BodyParseState {
            in_body: false,
            in_div: false,
            in_p: false,
            current_div_song_part: None,
            current_p_element_data: None,
            span_stack: Vec::new(),
            last_syllable_info: LastSyllableInfo::Nothing,
        }
    }
}

impl TtmlParserState {
    /// The parser's invariant: the agent store is well formed, and a `<p>`
    /// being parsed has its data.
    pub open spec fn wf(&self) -> bool {
        &&& self.agent_store.wf()
        &&& self.body_state.in_p ==> self.body_state.current_p_element_data is Some
    }
}

// ---------------------------------------------------------------------------
// Lines
// ---------------------------------------------------------------------------

/// Whether an annotated track holds nothing: no syllable and no annotation.
pub open spec fn track_is_empty(t: AnnotatedTrack) -> bool {
    &&& forall|w: int| 0 <= w < t.content.words@.len() ==> #[trigger] t.content.words@[w].syllables@.len() == 0
    &&& t.translations@.len() == 0
    &&& t.romanizations@.len() == 0
}

/// Whether a line holds something: a syllable or an annotation.
pub open spec fn line_has_data(line: LyricLine) -> bool {
    exists|t: int| 0 <= t < line.tracks@.len() && !#[trigger] track_is_empty(line.tracks@[t])
}

/// Every line holds something.
pub open spec fn lines_have_data(lines: Seq<LyricLine>) -> bool {
    forall|i: int| 0 <= i < lines.len() ==> #[trigger] line_has_data(lines[i])
}

/// Appends a line that holds something.
fn push_line(lines: &mut Vec<LyricLine>, line: LyricLine)
    requires
        line_has_data(line),
    ensures
        lines_have_data(old(lines)@) ==> lines_have_data(final(lines)@),
        final(lines)@ == old(lines)@.push(line),
{
    lines.push(line);
}

// ---------------------------------------------------------------------------
// Small helpers
// ---------------------------------------------------------------------------

/// A copy of an optional string.
pub fn copy_opt(o: &Option<String>) -> (r: Option<String>)
    ensures
        opt_text(r) == opt_text(*o),
{
    match o {
        Some(s) => Some(to_owned_string(s.as_str())),
        None => None,
    }
}

/// Whether a span on the stack is a background container.
pub open spec fn within_background(stack: Seq<SpanContext>) -> bool {
    exists|i: int| 0 <= i < stack.len() && #[trigger] stack[i].role == SpanRole::Background
}

/// Whether a span on the stack is a background container.
fn any_background(stack: &Vec<SpanContext>) -> (r: bool)
    ensures
        r == within_background(stack@),
{
    let mut i: usize = 0;
    while i < stack.len()
        invariant
            i <= stack@.len(),
            forall|k: int| 0 <= k < i ==> #[trigger] stack@[k].role != SpanRole::Background,
        decreases stack@.len() - i,
    {
        if stack[i].role == SpanRole::Background {
            return true;
        }
        i = i + 1;
    }
    false
}

/// Whether a text starts with whitespace.
pub open spec fn starts_with_ws(s: Seq<char>) -> bool {
    s.len() > 0 && is_ws(s[0])
}

/// Whether a text ends with whitespace.
pub open spec fn ends_with_ws(s: Seq<char>) -> bool {
    s.len() > 0 && is_ws(s.last())
}

/// Whether a text starts with whitespace.
fn starts_with_whitespace(s: &str) -> (r: bool)
    ensures
        r == starts_with_ws(s@),
{
    let v = chars_of(s);
    v.len() > 0 && is_whitespace(v[0])
}

/// Whether a text ends with whitespace.
fn ends_with_whitespace(s: &str) -> (r: bool)
    ensures
        r == ends_with_ws(s@),
{
    let v = chars_of(s);
    v.len() > 0 && is_whitespace(v[v.len() - 1])
}

/// Whether a text holds the character `c`.
fn contains_char(s: &str, c: char) -> (r: bool)
    ensures
        r == s@.contains(c),
{
    let v = chars_of(s);
    let mut i: usize = 0;
    while i < v.len()
        invariant
            i <= v@.len(),
            v@ == s@,
            forall|k: int| 0 <= k < i ==> v@[k] != c,
        decreases v@.len() - i,
    {
        if v[i] == c {
            assert(s@[i as int] == c);
            return true;
        }
        i = i + 1;
    }
    false
}

/// Whether `needle` occurs in `hay`.
pub open spec fn contains_text(hay: Seq<char>, needle: Seq<char>) -> bool {
    exists|p: int| 0 <= p && p + needle.len() <= hay.len() && #[trigger] hay.subrange(p, p + needle.len()) == needle
}

/// Whether `needle` occurs in `hay` (`str::contains`).
pub fn contains_str(hay: &str, needle: &str) -> (r: bool)
    ensures
        r == contains_text(hay@, needle@),
{
    let h = chars_of(hay);
    let n = chars_of(needle);
    if n.len() > h.len() {
        proof {
            assert forall|p: int| 0 <= p && p + needle@.len() <= hay@.len() implies #[trigger] hay@.subrange(
                p,
                p + needle@.len(),
            ) != needle@ by {}
        }
        return false;
    }
    let mut p: usize = 0;
    while p <= h.len() - n.len()
        invariant
            h@ == hay@,
            n@ == needle@,
            n@.len() <= h@.len(),
            p <= h@.len() - n@.len() + 1,
            forall|q: int| 0 <= q < p ==> #[trigger] hay@.subrange(q, q + needle@.len()) != needle@,
        decreases h@.len() - n@.len() + 1 - p,
    {
        let mut k: usize = 0;
        let mut same = true;
        while k < n.len()
            invariant
                h@ == hay@,
                n@ == needle@,
                p + n@.len() <= h@.len(),
                k <= n@.len(),
                same == forall|j: int| 0 <= j < k ==> h@[p + j] == n@[j],
            decreases n@.len() - k,
        {
            let hl = h.len();
            assert(p + k < hl);
            if h[p + k] != n[k] {
                same = false;
            }
            k = k + 1;
        }
        if same {
            assert(hay@.subrange(p as int, p + needle@.len()) =~= needle@);
            return true;
        }
        assert(hay@.subrange(p as int, p + needle@.len()) != needle@) by {
            let j = choose|j: int| 0 <= j < n@.len() && h@[p + j] != n@[j];
            assert(hay@.subrange(p as int, p + needle@.len())[j] != needle@[j]);
        }
        p = p + 1;
    }
    proof {
        assert forall|q: int| 0 <= q && q + needle@.len() <= hay@.len() implies #[trigger] hay@.subrange(
            q,
            q + needle@.len(),
        ) != needle@ by {
            assert(q < p);
        }
    }
    false
}

// ---------------------------------------------------------------------------
// Attributes
// ---------------------------------------------------------------------------

/// The value of the first attribute named `name`.
pub open spec fn attr_value(attrs: Seq<(String, String)>, name: Seq<char>) -> Option<Seq<char>>
    decreases attrs.len(),
{
    if attrs.len() == 0 {
        None
    } else if attrs[0].0@ == name {
        Some(attrs[0].1@)
    } else {
        attr_value(attrs.drop_first(), name)
    }
}

/// The value of the first attribute named `name`.
fn find_attribute(attrs: &Vec<(String, String)>, name: &str) -> (r: Option<String>)
    ensures
        opt_text(r) == attr_value(attrs@, name@),
{
    let mut i: usize = 0;
    assert(attrs@.skip(0) =~= attrs@);
    while i < attrs.len()
        invariant
            i <= attrs@.len(),
            attr_value(attrs@, name@) == attr_value(attrs@.skip(i as int), name@),
        decreases attrs@.len() - i,
    {
        assert(attrs@.skip(i as int).drop_first() =~= attrs@.skip(i + 1));
        if str_eq(attrs[i].0.as_str(), name) {
            return Some(to_owned_string(attrs[i].1.as_str()));
        }
        i = i + 1;
    }
    None
}

/// The errors parsing can meet: an XML error that cannot be recovered
/// from, or an attribute that cannot be read.
pub open spec fn is_parse_error(e: ConvertError) -> bool {
    e is Xml || e is Attribute
}

/// The value of the attribute `name` of a start tag, or the error met
/// reading the tag's attributes.
pub fn string_attribute(attrs: &Result<Vec<(String, String)>, String>, name: &str) -> (r: Result<
    Option<String>,
    ConvertError,
>)
    ensures
        r matches Err(e) ==> is_parse_error(e),
        match attrs {
            Ok(a) => r matches Ok(v) && opt_text(v) == attr_value(a@, name@),
            Err(e) => r matches Err(ConvertError::Attribute(m)) && m@ == e@,
        },
{
    match attrs {
        Ok(a) => Ok(find_attribute(a, name)),
        Err(e) => Err(ConvertError::Attribute(to_owned_string(e.as_str()))),
    }
}

/// The value of the attribute `name`, else of `alias`.
pub fn string_attribute_or(attrs: &Result<Vec<(String, String)>, String>, name: &str, alias: &str) -> (r: Result<
    Option<String>,
    ConvertError,
>)
    ensures
        r matches Err(e) ==> is_parse_error(e),
        match attrs {
            Ok(a) => r matches Ok(v) && opt_text(v) == (if attr_value(a@, name@) is Some {
                attr_value(a@, name@)
            } else {
                attr_value(a@, alias@)
            }),
            Err(e) => r is Err,
        },
{
    match string_attribute(attrs, name)? {
        Some(v) => Ok(Some(v)),
        None => string_attribute(attrs, alias),
    }
}

/// The time of the attribute `name`: its value read as a TTML time, when it
/// is one and fits in 64 bits.
pub open spec fn time_attr_value(a: Seq<(String, String)>, name: Seq<char>) -> Option<u64> {
    match attr_value(a, name) {
        Some(v) => match crate::time::ttml_time_value(v) {
            Some(ms) => if ms <= u64::MAX {
                Some(ms as u64)
            } else {
                None
            },
            None => None,
        },
        None => None,
    }
}

/// The time in milliseconds of the attribute `name`; a time that cannot be
/// parsed is dropped with a warning.
pub fn time_attribute(attrs: &Result<Vec<(String, String)>, String>, name: &str, warnings: &mut Vec<String>) -> (r:
    Result<Option<u64>, ConvertError>)
    ensures
        r matches Err(e) ==> is_parse_error(e),
        match attrs {
            Ok(a) => r == Ok::<Option<u64>, ConvertError>(time_attr_value(a@, name@)),
            Err(e) => r matches Err(ConvertError::Attribute(m)) && m@ == e@,
        },
        old(warnings)@.is_prefix_of(final(warnings)@),
{
    match string_attribute(attrs, name)? {
        Some(value_str) => match parse_ttml_time_to_ms(value_str.as_str()) {
            Ok(ms) => Ok(Some(ms)),
            Err(err) => {
                let mut w = to_owned_string("时间戳 '");
                push_str(&mut w, value_str.as_str());
                push_str(&mut w, "' 解析失败 (");
                let m = err.message();
                push_str(&mut w, m.as_str());
                push_str(&mut w, "). 该时间戳将被忽略.");
                warnings.push(w);
                Ok(None)
            },
        },
        None => Ok(None),
    }
}

// ---------------------------------------------------------------------------
// Syllables and tracks
// ---------------------------------------------------------------------------

/// The text a syllable gets from the raw text of its span: trimmed, then
/// with background brackets removed or with whitespace normalised.
pub open spec fn syllable_text(raw: Seq<char>, is_background: bool) -> Seq<char> {
    if is_background {
        clean_parens(trim(raw))
    } else {
        normalize_ws(trim(raw))
    }
}

/// `s` is the syllable `text` spanning `start..end` with the given duration
/// and trailing space.
pub open spec fn syllable_is(
    s: LyricSyllable,
    text: Seq<char>,
    start: u64,
    end: u64,
    duration: Option<u64>,
    space: bool,
) -> bool {
    &&& s.text@ == text
    &&& s.start_ms == start
    &&& s.end_ms == end
    &&& s.duration_ms == duration
    &&& s.ends_with_space == space
}

/// `b` is `a` with a trailing space.
pub open spec fn with_space(a: LyricSyllable, b: LyricSyllable) -> bool {
    syllable_is(b, a.text@, a.start_ms, a.end_ms, a.duration_ms, true)
}

/// `end - start`, or 0.
pub open spec fn sat_sub64(end: u64, start: u64) -> u64 {
    if end >= start {
        (end - start) as u64
    } else {
        0
    }
}

/// The empty text stays empty when cleaned.
proof fn lemma_empty_text(s: Seq<char>)
    requires
        s.len() == 0,
    ensures
        clean_parens(s).len() == 0,
        normalize_ws(s).len() == 0,
{
    let w = crate::text::CharClass::Whitespace;
    assert(crate::text::strip_start(s, w) == s);
    assert(crate::text::strip_end(s, w) == s);
    assert(trim(s) == s);
    assert(crate::text::strip_start(s, crate::text::CharClass::OpenParen) == s);
    assert(crate::text::strip_end(s, crate::text::CharClass::CloseParen) == s);
}

/// `new_acc` is `old_acc` after the span `raw` timed `start..end`: a leading
/// space marks the previous syllable as followed by a space; the text (see
/// `syllable_text`) becomes a syllable when it is not empty, with a trailing
/// space when the raw text ends with whitespace.
pub open spec fn syllable_added(
    old_acc: Seq<LyricSyllable>,
    new_acc: Seq<LyricSyllable>,
    start_ms: u64,
    end_ms: u64,
    raw: Seq<char>,
    is_background: bool,
) -> bool {
    let marked = starts_with_ws(raw) && old_acc.len() > 0 && !old_acc.last().ends_with_space;
    let mid = if marked {
        new_acc.len() > 0 && with_space(old_acc.last(), new_acc[old_acc.len() - 1])
    } else {
        old_acc.len() > 0 ==> new_acc[old_acc.len() - 1] == old_acc.last()
    };
    let text = syllable_text(raw, is_background);
    &&& mid
    &&& forall|i: int| 0 <= i < old_acc.len() - 1 ==> #[trigger] new_acc[i] == old_acc[i]
    &&& new_acc.len() == old_acc.len() + if text.len() > 0 {
        1int
    } else {
        0int
    }
    &&& text.len() > 0 ==> syllable_is(
        new_acc.last(),
        text,
        start_ms,
        end_ms,
        Some(sat_sub64(end_ms, start_ms)),
        ends_with_ws(raw),
    )
}

/// Adds the syllable of a span's raw text to `syllable_accumulator`: a
/// leading space marks the previous syllable as followed by a space; the
/// text (see `syllable_text`) becomes a syllable when it is not empty, with
/// a trailing space when the raw text ends with whitespace.
pub fn process_syllable(
    start_ms: u64,
    end_ms: u64,
    raw_text: &str,
    is_background: bool,
    text_processing_buffer: &mut String,
    syllable_accumulator: &mut Vec<LyricSyllable>,
)
    ensures
        syllable_added(old(syllable_accumulator)@, final(syllable_accumulator)@, start_ms, end_ms, raw_text@, is_background),
{
    let ghost old_acc = syllable_accumulator@;
    if starts_with_whitespace(raw_text) && syllable_accumulator.len() > 0 {
        let last = syllable_accumulator.len() - 1;
        if !syllable_accumulator[last].ends_with_space {
            syllable_accumulator[last].ends_with_space = true;
        }
    }
    let ghost marked_acc = syllable_accumulator@;
    let trimmed_text = trim_string(raw_text);
    if text_is_empty(trimmed_text.as_str()) {
        proof {
            lemma_empty_text(trim(raw_text@));
        }
        return;
    }
    if is_background {
        clean_parentheses_from_bg_text_into(trimmed_text.as_str(), text_processing_buffer);
    } else {
        normalize_text_whitespace_into(trimmed_text.as_str(), text_processing_buffer);
    }
    if text_is_empty(text_processing_buffer.as_str()) {
        return;
    }
    let duration = if end_ms >= start_ms { end_ms - start_ms } else { 0 };
    let new_syllable = LyricSyllable {
        text: to_owned_string(text_processing_buffer.as_str()),
        start_ms,
        end_ms,
        duration_ms: Some(duration),
        ends_with_space: ends_with_whitespace(raw_text),
    };
    syllable_accumulator.push(new_syllable);
}

/// The index of the track of the given kind, appending an empty one when
/// there is none.
pub fn get_or_create_target_annotated_track(p_data: &mut CurrentPElementData, content_type: ContentType) -> (r: usize)
    ensures
        r < final(p_data).tracks_accumulator@.len(),
        final(p_data).tracks_accumulator@[r as int].content_type == content_type,
        final(p_data).start_ms == old(p_data).start_ms,
        final(p_data).end_ms == old(p_data).end_ms,
        final(p_data).agent == old(p_data).agent,
        final(p_data).song_part == old(p_data).song_part,
        final(p_data).itunes_key == old(p_data).itunes_key,
        final(p_data).line_text_accumulator == old(p_data).line_text_accumulator,
        forall|k: int| 0 <= k < r ==> #[trigger] final(p_data).tracks_accumulator@[k].content_type != content_type,
        match crate::types::first_index_of_type(old(p_data).tracks_accumulator@, content_type) {
            Some(i) => r == i && final(p_data).tracks_accumulator == old(p_data).tracks_accumulator,
            None => {
                &&& r == old(p_data).tracks_accumulator@.len()
                &&& final(p_data).tracks_accumulator@.drop_last() == old(p_data).tracks_accumulator@
                &&& track_is_empty(final(p_data).tracks_accumulator@[r as int])
                &&& final(p_data).tracks_accumulator@[r as int].content.metadata@.len() == 0
                &&& final(p_data).tracks_accumulator@[r as int].content.words@.len() == 0
            },
        },
{
    proof {
        crate::types::lemma_first_index_of_type(p_data.tracks_accumulator@, content_type);
    }
    match crate::types::first_of_type(&p_data.tracks_accumulator, content_type) {
        Some(index) => index,
        None => {
            let ghost before = p_data.tracks_accumulator@;
            p_data.tracks_accumulator.push(AnnotatedTrack::empty(content_type));
            assert(p_data.tracks_accumulator@.drop_last() =~= before);
            p_data.tracks_accumulator.len() - 1
        },
    }
}

/// A translation track of one syllable `text` (untimed), with its language
/// if given.
pub fn create_simple_translation_track(text: &str, lang: Option<&String>) -> (t: LyricTrack)
    ensures
        crate::types::is_single_syllable_track(t, text@, 0, 0),
        crate::types::has_only_entry(
            t,
            TrackMetadataKey::Language,
            match lang {
                Some(l) => Some(l@),
                None => None,
            },
        ),
{
    let mut track = crate::types::single_syllable_track(text, 0, 0);
    match lang {
        Some(lang_code) => {
            track.metadata.push((TrackMetadataKey::Language, to_owned_string(lang_code.as_str())));
        },
        None => {},
    }
    track
}

// ---------------------------------------------------------------------------
// Copies of tracks
// ---------------------------------------------------------------------------

/// `b` is a copy of the syllable `a`.
pub open spec fn syllable_copied(a: LyricSyllable, b: LyricSyllable) -> bool {
    syllable_is(b, a.text@, a.start_ms, a.end_ms, a.duration_ms, a.ends_with_space)
}

/// `b` is a copy of the furigana syllable `a`.
pub open spec fn furigana_copied(a: crate::types::FuriganaSyllable, b: crate::types::FuriganaSyllable) -> bool {
    b.text@ == a.text@ && b.timing == a.timing
}

/// `b` is a copy of the word `a`: its syllables and its furigana.
pub open spec fn word_copied(a: Word, b: Word) -> bool {
    &&& b.syllables@.len() == a.syllables@.len()
    &&& forall|i: int| 0 <= i < a.syllables@.len() ==> syllable_copied(a.syllables@[i], #[trigger] b.syllables@[i])
    &&& match (a.furigana, b.furigana) {
        (Some(f), Some(g)) => g@.len() == f@.len() && forall|k: int|
            0 <= k < f@.len() ==> furigana_copied(f@[k], #[trigger] g@[k]),
        (None, None) => true,
        _ => false,
    }
}

/// `b` is a copy of the metadata entry `a`.
pub open spec fn entry_copied(a: (TrackMetadataKey, String), b: (TrackMetadataKey, String)) -> bool {
    crate::types::same_track_key(b.0, a.0) && b.1@ == a.1@
}

/// `b` is a copy of the track `a`: its words and its metadata.
pub open spec fn track_copied(a: LyricTrack, b: LyricTrack) -> bool {
    &&& b.words@.len() == a.words@.len()
    &&& forall|i: int| 0 <= i < a.words@.len() ==> word_copied(a.words@[i], #[trigger] b.words@[i])
    &&& b.metadata@.len() == a.metadata@.len()
    &&& forall|k: int| 0 <= k < a.metadata@.len() ==> entry_copied(a.metadata@[k], #[trigger] b.metadata@[k])
}

/// `after` is `before` followed by copies of `src`.
pub open spec fn tracks_copied(src: Seq<LyricTrack>, before: Seq<LyricTrack>, after: Seq<LyricTrack>) -> bool {
    &&& after.len() == before.len() + src.len()
    &&& forall|i: int| 0 <= i < before.len() ==> #[trigger] after[i] == before[i]
    &&& forall|i: int| 0 <= i < src.len() ==> track_copied(src[i], #[trigger] after[before.len() + i])
}

/// A copy of a syllable.
fn copy_syllable(s: &LyricSyllable) -> (r: LyricSyllable)
    ensures
        syllable_is(r, s.text@, s.start_ms, s.end_ms, s.duration_ms, s.ends_with_space),
{
    LyricSyllable {
        text: to_owned_string(s.text.as_str()),
        start_ms: s.start_ms,
        end_ms: s.end_ms,
        duration_ms: s.duration_ms,
        ends_with_space: s.ends_with_space,
    }
}

/// A copy of a word (its syllables and furigana).
fn copy_word(w: &Word) -> (r: Word)
    ensures
        r.syllables@.len() == w.syllables@.len(),
        forall|i: int| 0 <= i < w.syllables@.len() ==> #[trigger] r.syllables@[i].end_ms == w.syllables@[i].end_ms,
        word_copied(*w, r),
{
    let mut syllables: Vec<LyricSyllable> = Vec::new();
    let mut i: usize = 0;
    while i < w.syllables.len()
        invariant
            i <= w.syllables@.len(),
            syllables@.len() == i,
            forall|k: int| 0 <= k < i ==> #[trigger] syllables@[k].end_ms == w.syllables@[k].end_ms,
            forall|k: int| 0 <= k < i ==> syllable_copied(w.syllables@[k], #[trigger] syllables@[k]),
        decreases w.syllables@.len() - i,
    {
        syllables.push(copy_syllable(&w.syllables[i]));
        i = i + 1;
    }
    let furigana = match &w.furigana {
        Some(f) => {
            let mut out: Vec<crate::types::FuriganaSyllable> = Vec::new();
            let mut k: usize = 0;
            while k < f.len()
                invariant
                    k <= f@.len(),
                    out@.len() == k,
                    forall|j: int| 0 <= j < k ==> furigana_copied(f@[j], #[trigger] out@[j]),
                decreases f@.len() - k,
            {
                out.push(crate::types::FuriganaSyllable { text: to_owned_string(f[k].text.as_str()), timing: f[k].timing });
                k = k + 1;
            }
            Some(out)
        },
        None => None,
    };
    Word { syllables, furigana }
}

/// A copy of a track (its words and metadata).
fn copy_track(t: &LyricTrack) -> (r: LyricTrack)
    ensures
        r.words@.len() == t.words@.len(),
        track_copied(*t, r),
{
    let mut words: Vec<Word> = Vec::new();
    let mut i: usize = 0;
    while i < t.words.len()
        invariant
            i <= t.words@.len(),
            words@.len() == i,
            forall|k: int| 0 <= k < i ==> word_copied(t.words@[k], #[trigger] words@[k]),
        decreases t.words@.len() - i,
    {
        words.push(copy_word(&t.words[i]));
        i = i + 1;
    }
    let mut metadata: Vec<(TrackMetadataKey, String)> = Vec::new();
    let mut k: usize = 0;
    while k < t.metadata.len()
        invariant
            k <= t.metadata@.len(),
            metadata@.len() == k,
            forall|j: int| 0 <= j < k ==> entry_copied(t.metadata@[j], #[trigger] metadata@[j]),
        decreases t.metadata@.len() - k,
    {
        metadata.push((t.metadata[k].0.clone_key(), to_owned_string(t.metadata[k].1.as_str())));
        k = k + 1;
    }
    LyricTrack { words, metadata }
}

/// Appends copies of `src` to `dst`.
fn extend_with_copies(dst: &mut Vec<LyricTrack>, src: &Vec<LyricTrack>)
    ensures
        final(dst)@.len() == old(dst)@.len() + src@.len(),
        forall|i: int| 0 <= i < old(dst)@.len() ==> #[trigger] final(dst)@[i] == old(dst)@[i],
        tracks_copied(src@, old(dst)@, final(dst)@),
{
    let ghost before = dst@;
    let mut i: usize = 0;
    while i < src.len()
        invariant
            i <= src@.len(),
            dst@.len() == before.len() + i,
            before == old(dst)@,
            forall|k: int| 0 <= k < before.len() ==> #[trigger] dst@[k] == before[k],
            forall|k: int| 0 <= k < i ==> track_copied(src@[k], #[trigger] dst@[before.len() + k]),
        decreases src@.len() - i,
    {
        dst.push(copy_track(&src[i]));
        i = i + 1;
    }
}

// ---------------------------------------------------------------------------
// The latest end time of a line
// ---------------------------------------------------------------------------

/// The larger of two times.
pub open spec fn max64(a: u64, b: u64) -> u64 {
    if a >= b {
        a
    } else {
        b
    }
}

/// The latest end among syllables (0 for none).
pub open spec fn syllables_end(s: Seq<LyricSyllable>) -> u64
    decreases s.len(),
{
    if s.len() == 0 {
        0
    } else {
        max64(syllables_end(s.drop_last()), s.last().end_ms)
    }
}

/// The latest end among the syllables of words.
pub open spec fn words_end(w: Seq<Word>) -> u64
    decreases w.len(),
{
    if w.len() == 0 {
        0
    } else {
        max64(words_end(w.drop_last()), syllables_end(w.last().syllables@))
    }
}

/// The latest end among the syllables of tracks.
pub open spec fn tracks_end(t: Seq<LyricTrack>) -> u64
    decreases t.len(),
{
    if t.len() == 0 {
        0
    } else {
        max64(tracks_end(t.drop_last()), words_end(t.last().words@))
    }
}

/// The latest end among the syllables of an annotated track and of its
/// annotations.
pub open spec fn annotated_end(t: AnnotatedTrack) -> u64 {
    max64(max64(words_end(t.content.words@), tracks_end(t.translations@)), tracks_end(t.romanizations@))
}

/// The latest end among the syllables of annotated tracks.
pub open spec fn line_tracks_end(t: Seq<AnnotatedTrack>) -> u64
    decreases t.len(),
{
    if t.len() == 0 {
        0
    } else {
        max64(line_tracks_end(t.drop_last()), annotated_end(t.last()))
    }
}

/// The latest end among syllables (see `syllables_end`).
fn syllables_end_exec(s: &Vec<LyricSyllable>) -> (r: u64)
    ensures
        r == syllables_end(s@),
{
    let mut m: u64 = 0;
    let mut i: usize = 0;
    while i < s.len()
        invariant
            i <= s@.len(),
            m == syllables_end(s@.take(i as int)),
        decreases s@.len() - i,
    {
        assert(s@.take(i + 1).drop_last() =~= s@.take(i as int));
        if s[i].end_ms > m {
            m = s[i].end_ms;
        }
        i = i + 1;
    }
    assert(s@.take(s@.len() as int) =~= s@);
    m
}

/// The latest end among the syllables of words (see `words_end`).
fn words_end_exec(w: &Vec<Word>) -> (r: u64)
    ensures
        r == words_end(w@),
{
    let mut m: u64 = 0;
    let mut i: usize = 0;
    while i < w.len()
        invariant
            i <= w@.len(),
            m == words_end(w@.take(i as int)),
        decreases w@.len() - i,
    {
        assert(w@.take(i + 1).drop_last() =~= w@.take(i as int));
        let e = syllables_end_exec(&w[i].syllables);
        if e > m {
            m = e;
        }
        i = i + 1;
    }
    assert(w@.take(w@.len() as int) =~= w@);
    m
}

/// The latest end among the syllables of tracks (see `tracks_end`).
fn tracks_end_exec(t: &Vec<LyricTrack>) -> (r: u64)
    ensures
        r == tracks_end(t@),
{
    let mut m: u64 = 0;
    let mut i: usize = 0;
    while i < t.len()
        invariant
            i <= t@.len(),
            m == tracks_end(t@.take(i as int)),
        decreases t@.len() - i,
    {
        assert(t@.take(i + 1).drop_last() =~= t@.take(i as int));
        let e = words_end_exec(&t[i].words);
        if e > m {
            m = e;
        }
        i = i + 1;
    }
    assert(t@.take(t@.len() as int) =~= t@);
    m
}

/// The latest end among the syllables of annotated tracks (see
/// `line_tracks_end`).
fn line_tracks_end_exec(t: &Vec<AnnotatedTrack>) -> (r: u64)
    ensures
        r == line_tracks_end(t@),
{
    let mut m: u64 = 0;
    let mut i: usize = 0;
    while i < t.len()
        invariant
            i <= t@.len(),
            m == line_tracks_end(t@.take(i as int)),
        decreases t@.len() - i,
    {
        assert(t@.take(i + 1).drop_last() =~= t@.take(i as int));
        let a = words_end_exec(&t[i].content.words);
        let b = tracks_end_exec(&t[i].translations);
        let c = tracks_end_exec(&t[i].romanizations);
        let ab = if a >= b { a } else { b };
        let e = if ab >= c { ab } else { c };
        if e > m {
            m = e;
        }
        i = i + 1;
    }
    assert(t@.take(t@.len() as int) =~= t@);
    m
}

/// Whether an annotated track holds nothing (see `track_is_empty`).
fn track_is_empty_exec(t: &AnnotatedTrack) -> (r: bool)
    ensures
        r == track_is_empty(*t),
{
    if t.translations.len() > 0 || t.romanizations.len() > 0 {
        return false;
    }
    let mut i: usize = 0;
    while i < t.content.words.len()
        invariant
            i <= t.content.words@.len(),
            t.translations@.len() == 0,
            t.romanizations@.len() == 0,
            forall|k: int| 0 <= k < i ==> #[trigger] t.content.words@[k].syllables@.len() == 0,
        decreases t.content.words@.len() - i,
    {
        if t.content.words[i].syllables.len() > 0 {
            return false;
        }
        i = i + 1;
    }
    true
}

/// Whether some track of the line holds something (see `line_has_data`).
fn line_has_data_exec(line: &LyricLine) -> (r: bool)
    ensures
        r == line_has_data(*line),
{
    let mut i: usize = 0;
    while i < line.tracks.len()
        invariant
            i <= line.tracks@.len(),
            forall|k: int| 0 <= k < i ==> #[trigger] track_is_empty(line.tracks@[k]),
        decreases line.tracks@.len() - i,
    {
        if !track_is_empty_exec(&line.tracks[i]) {
            return true;
        }
        i = i + 1;
    }
    false
}

// ---------------------------------------------------------------------------
// Keyed lists
// ---------------------------------------------------------------------------

/// `after` is the raw metadata `before` with `value` added to the values of
/// its first entry for `key`, or, without such an entry, with a new entry
/// for `key` holding `value` alone.
pub open spec fn raw_pushed(
    before: Seq<(Seq<char>, Seq<Seq<char>>)>,
    after: Seq<(Seq<char>, Seq<Seq<char>>)>,
    key: Seq<char>,
    value: Seq<char>,
) -> bool {
    ||| exists|i: int|
        0 <= i < before.len() && #[trigger] before[i].0 == key && (forall|j: int|
            0 <= j < i ==> before[j].0 != key) && after == before.update(i, (key, before[i].1.push(value)))
    ||| (forall|j: int| 0 <= j < before.len() ==> before[j].0 != key) && after == before.push((key, seq![value]))
}

/// Appends `value` to the values of `key` in raw metadata, creating the
/// entry if needed.
fn push_raw_metadata(raw: &mut Vec<(String, Vec<String>)>, key: &str, value: String)
    ensures
        raw_pushed(raw_view(old(raw)@), raw_view(final(raw)@), key@, value@),
{
    let ghost before = raw_view(raw@);
    let mut i: usize = 0;
    while i < raw.len()
        invariant
            i <= raw@.len(),
            raw_view(raw@) == before,
            before == raw_view(old(raw)@),
            forall|j: int| 0 <= j < i ==> before[j].0 != key@,
        decreases raw@.len() - i,
    {
        if str_eq(raw[i].0.as_str(), key) {
            let ghost entry = raw@[i as int];
            raw[i].1.push(value);
            proof {
                assert(raw@[i as int].0 == entry.0);
                assert(texts(raw@[i as int].1@) == texts(entry.1@).push(value@));
                assert(raw_view(raw@) == before.update(i as int, (key@, before[i as int].1.push(value@))));
                assert(before[i as int].0 == key@);
            }
            return;
        }
        i = i + 1;
    }
    let mut values: Vec<String> = Vec::new();
    values.push(value);
    let ghost v = value@;
    raw.push((to_owned_string(key), values));
    proof {
        assert(texts(raw@.last().1@) == seq![v]);
        assert(raw_view(raw@) == before.push((key@, seq![v])));
    }
}

/// Entry `i` is the first line translation for `key`.
pub open spec fn first_translation_at(map: Seq<(String, LineTranslation, Option<String>)>, key: Seq<char>, i: int) -> bool {
    0 <= i < map.len() && map[i].0@ == key && forall|j: int| 0 <= j < i ==> (#[trigger] map[j]).0@ != key
}

/// Whether there is a line translation for `key`.
pub open spec fn has_translation_key(map: Seq<(String, LineTranslation, Option<String>)>, key: Seq<char>) -> bool {
    exists|i: int| 0 <= i < map.len() && (#[trigger] map[i]).0@ == key
}

/// The position of the line translation for `key`.
fn find_line_translation(map: &Vec<(String, LineTranslation, Option<String>)>, key: &str) -> (r: Option<usize>)
    ensures
        r matches Some(i) ==> first_translation_at(map@, key@, i as int),
        r is None ==> !has_translation_key(map@, key@),
{
    let mut i: usize = 0;
    while i < map.len()
        invariant
            i <= map@.len(),
            forall|j: int| 0 <= j < i ==> (#[trigger] map@[j]).0@ != key@,
        decreases map@.len() - i,
    {
        if str_eq(map[i].0.as_str(), key) {
            return Some(i);
        }
        i = i + 1;
    }
    None
}

/// The position of the timed tracks for `key`, creating an empty entry if
/// needed.
fn timed_entry(map: &mut Vec<(String, DetailedAuxiliaryTracks)>, key: &str) -> (r: usize)
    ensures
        r < final(map)@.len(),
        final(map)@[r as int].0@ == key@,
{
    let mut i: usize = 0;
    while i < map.len()
        invariant
            i <= map@.len(),
        decreases map@.len() - i,
    {
        if str_eq(map[i].0.as_str(), key) {
            return i;
        }
        i = i + 1;
    }
    map.push((
        to_owned_string(key),
        DetailedAuxiliaryTracks {
            main_tracks: AuxiliaryTrackSet { translations: Vec::new(), romanizations: Vec::new() },
            background_tracks: AuxiliaryTrackSet { translations: Vec::new(), romanizations: Vec::new() },
        },
    ));
    map.len() - 1
}

/// Entry `i` is the first timed entry for `key`.
pub open spec fn first_key_at(map: Seq<(String, DetailedAuxiliaryTracks)>, key: Seq<char>, i: int) -> bool {
    0 <= i < map.len() && map[i].0@ == key && forall|j: int| 0 <= j < i ==> (#[trigger] map[j]).0@ != key
}

/// The position of the timed tracks for `key`.
fn find_timed(map: &Vec<(String, DetailedAuxiliaryTracks)>, key: &str) -> (r: Option<usize>)
    ensures
        r matches Some(i) ==> first_key_at(map@, key@, i as int),
        r is None ==> !has_timed_entry(map@, key@),
{
    let mut i: usize = 0;
    while i < map.len()
        invariant
            i <= map@.len(),
            forall|j: int| 0 <= j < i ==> (#[trigger] map@[j]).0@ != key@,
        decreases map@.len() - i,
    {
        if str_eq(map[i].0.as_str(), key) {
            return Some(i);
        }
        i = i + 1;
    }
    None
}

/// The id made up for an agent named directly, if any.
fn find_agent_name(map: &Vec<(String, String)>, name: &str) -> (r: Option<usize>)
    ensures
        r matches Some(i) ==> i < map@.len() && map@[i as int].0@ == name@ && forall|j: int|
            0 <= j < i ==> (#[trigger] map@[j]).0@ != name@,
        r is None ==> forall|j: int| 0 <= j < map@.len() ==> (#[trigger] map@[j]).0@ != name@,
{
    let mut i: usize = 0;
    while i < map.len()
        invariant
            i <= map@.len(),
            forall|j: int| 0 <= j < i ==> (#[trigger] map@[j]).0@ != name@,
        decreases map@.len() - i,
    {
        if str_eq(map[i].0.as_str(), name) {
            return Some(i);
        }
        i = i + 1;
    }
    None
}

// ---------------------------------------------------------------------------
// The end of a span
// ---------------------------------------------------------------------------

/// Where the content track of type `ct` is: the first one of that type,
/// else a new one at the end.
pub open spec fn target_index(tracks: Seq<AnnotatedTrack>, ct: ContentType) -> int {
    match crate::types::first_index_of_type(tracks, ct) {
        Some(i) => i,
        None => tracks.len() as int,
    }
}

/// The syllables of the first word of track `i`; none without such a track
/// or word.
pub open spec fn first_word_syllables(tracks: Seq<AnnotatedTrack>, i: int) -> Seq<LyricSyllable> {
    if 0 <= i < tracks.len() && tracks[i].content.words@.len() > 0 {
        tracks[i].content.words@[0].syllables@
    } else {
        Seq::empty()
    }
}

/// `t1` is `t0` with the syllable of the span `raw`, timed `start..end`,
/// added (see `syllable_added`) to the first word of the content track of
/// type `ct` (see `target_index`); the other tracks are unchanged.
pub open spec fn syllable_put(
    t0: Seq<AnnotatedTrack>,
    t1: Seq<AnnotatedTrack>,
    ct: ContentType,
    start: u64,
    end: u64,
    raw: Seq<char>,
    bg: bool,
) -> bool {
    let i = target_index(t0, ct);
    &&& t1.len() == if i < t0.len() {
        t0.len() as int
    } else {
        t0.len() + 1int
    }
    &&& forall|j: int| 0 <= j < t0.len() && j != i ==> #[trigger] t1[j] == t0[j]
    &&& t1[i].content_type == ct
    &&& t1[i].content.words@.len() > 0
    &&& syllable_added(first_word_syllables(t0, i), t1[i].content.words@[0].syllables@, start, end, raw, bg)
}

/// The line text `acc` with `t` added, after a space when `acc` is not
/// empty and does not end with whitespace.
pub open spec fn line_text_joined(acc: Seq<char>, t: Seq<char>) -> Seq<char> {
    if acc.len() > 0 && !ends_with_ws(acc) {
        acc + seq![' '] + t
    } else {
        acc + t
    }
}

/// `d1` is the same line as `d0`: same times, singer, song part and key.
pub open spec fn same_line_head(d0: CurrentPElementData, d1: CurrentPElementData) -> bool {
    &&& d1.start_ms == d0.start_ms
    &&& d1.end_ms == d0.end_ms
    &&& d1.agent == d0.agent
    &&& d1.song_part == d0.song_part
    &&& d1.itunes_key == d0.itunes_key
}

/// The line data `d1` is `d0` after a syllable span `ctx` with text `text`
/// closed inside the spans `stack`: a timed span with text adds its
/// syllable (see `syllable_put`) to the background track inside a
/// background container, else to the main track; an untimed one adds its
/// trimmed text to the line text in line-timing mode (see
/// `line_text_joined`).
pub open spec fn generic_span_closed(
    d0: CurrentPElementData,
    d1: CurrentPElementData,
    stack: Seq<SpanContext>,
    line_mode: bool,
    ctx: SpanContext,
    text: Seq<char>,
) -> bool {
    let bg = within_background(stack);
    &&& same_line_head(d0, d1)
    &&& match (ctx.start_ms, ctx.end_ms) {
        (Some(s), Some(e)) => if text.len() == 0 {
            d1 == d0
        } else {
            &&& d1.line_text_accumulator == d0.line_text_accumulator
            &&& syllable_put(
                d0.tracks_accumulator@,
                d1.tracks_accumulator@,
                if bg {
                    ContentType::Background
                } else {
                    ContentType::Main
                },
                s,
                max64(s, e),
                text,
                bg,
            )
        },
        _ => {
            &&& d1.tracks_accumulator == d0.tracks_accumulator
            &&& d1.line_text_accumulator@ =~= if trim(text).len() > 0 && line_mode {
                line_text_joined(d0.line_text_accumulator@, trim(text))
            } else {
                d0.line_text_accumulator@
            }
        },
    }
}

/// The line data `d1` is `d0` after a translation or romanisation span
/// `ctx` with text `text` closed inside the spans `stack`: its normalised
/// text, when not empty, becomes an annotation (see `annotation_put`) of
/// the background track inside a background container, else of the main
/// track, in the span's language, else the default one.
pub open spec fn annotation_span_closed(
    d0: CurrentPElementData,
    d1: CurrentPElementData,
    stack: Seq<SpanContext>,
    default_translation: Option<String>,
    default_romanization: Option<String>,
    ctx: SpanContext,
    text: Seq<char>,
) -> bool {
    let bg = within_background(stack);
    let t = normalize_ws(text);
    &&& same_line_head(d0, d1)
    &&& d1.line_text_accumulator == d0.line_text_accumulator
    &&& if t.len() == 0 {
        d1.tracks_accumulator == d0.tracks_accumulator
    } else {
        annotation_put(
            d0.tracks_accumulator@,
            d1.tracks_accumulator@,
            if bg {
                ContentType::Background
            } else {
                ContentType::Main
            },
            ctx.role,
            t,
            if ctx.role == SpanRole::Translation {
                lang_or(ctx.lang, default_translation)
            } else {
                lang_or(ctx.lang, default_romanization)
            },
            opt_text(ctx.scheme),
        )
    }
}

/// The line data `d1` is `d0` after a background container `ctx` with
/// direct text `text` closed (see `background_text_put`).
pub open spec fn background_span_closed(
    d0: CurrentPElementData,
    d1: CurrentPElementData,
    ctx: SpanContext,
    text: Seq<char>,
) -> bool {
    &&& same_line_head(d0, d1)
    &&& d1.line_text_accumulator == d0.line_text_accumulator
    &&& background_text_put(
        d0.tracks_accumulator,
        d1.tracks_accumulator,
        trim(text),
        ctx.start_ms,
        ctx.end_ms,
        ends_with_ws(text),
    )
}

/// The warning of a syllable that starts after it ends.
pub open spec fn bad_timing_warning(text: Seq<char>, start: nat, end: nat) -> Seq<char> {
    "音节 '"@ + crate::text::debug_escaped(text) + "' 的时间戳无效 (start_ms "@ + crate::text::decimal(start)
        + " > end_ms "@ + crate::text::decimal(end) + "), 但仍会创建音节。"@
}

/// The warning of an untimed span in word-timing mode.
pub open spec fn untimed_span_warning(trimmed: Seq<char>) -> Seq<char> {
    "逐字模式下，span缺少时间信息，文本 '"@ + crate::text::debug_escaped(trimmed) + "' 被忽略。"@
}

/// The warnings of the end of a syllable span: one for a non-empty timed
/// span that starts after it ends; one for an untimed span with text in
/// word-timing mode; none otherwise.
pub open spec fn generic_span_warnings(ctx: SpanContext, text: Seq<char>, line_mode: bool) -> Seq<Seq<char>> {
    match (ctx.start_ms, ctx.end_ms) {
        (Some(s), Some(e)) => if text.len() > 0 && s > e {
            seq![bad_timing_warning(text, s as nat, e as nat)]
        } else {
            Seq::empty()
        },
        _ => if trim(text).len() > 0 && !line_mode {
            seq![untimed_span_warning(trim(text))]
        } else {
            Seq::empty()
        },
    }
}

/// Handles the end of a syllable `<span>`: a timed span becomes a syllable
/// of the main or background track; an untimed one adds its text to the
/// line in line-timing mode, and is dropped with a warning otherwise.
pub fn handle_generic_span_end(
    state: &mut TtmlParserState,
    ctx: &SpanContext,
    text: &str,
    warnings: &mut Vec<String>,
) -> (r: Result<(), ConvertError>)
    requires
        old(state).wf(),
        old(state).body_state.in_p,
    ensures
        final(state).is_line_timing_mode == old(state).is_line_timing_mode,
        r matches Err(e) ==> is_parse_error(e),
        final(state).wf(),
        final(state).body_state.in_p,
        r is Ok,
        final(state).agent_store == old(state).agent_store,
        final(state).in_metadata == old(state).in_metadata,
        final(state).text_buffer == old(state).text_buffer,
        final(state).metadata_state == old(state).metadata_state,
        final(state).body_state.span_stack == old(state).body_state.span_stack,
        generic_span_closed(
            old(state).body_state.current_p_element_data->Some_0,
            final(state).body_state.current_p_element_data->Some_0,
            old(state).body_state.span_stack@,
            old(state).is_line_timing_mode,
            *ctx,
            text@,
        ),
        texts(final(warnings)@) == texts(old(warnings)@) + generic_span_warnings(*ctx, text@, old(state).is_line_timing_mode),
{
    let ghost ow = texts(warnings@);
    match (ctx.start_ms, ctx.end_ms) {
        (Some(start_ms), Some(end_ms)) => {
            if text_is_empty(text) {
                assert(texts(warnings@) =~= ow + Seq::<Seq<char>>::empty());
                return Ok(());
            }
            if start_ms > end_ms {
                let mut w = to_owned_string("音节 '");
                push_escaped(&mut w, text);
                push_str(&mut w, "' 的时间戳无效 (start_ms ");
                push_decimal(&mut w, start_ms);
                push_str(&mut w, " > end_ms ");
                push_decimal(&mut w, end_ms);
                push_str(&mut w, "), 但仍会创建音节。");
                warnings.push(w);
                assert(texts(warnings@) =~= ow + seq![bad_timing_warning(text@, start_ms as nat, end_ms as nat)]);
            } else {
                assert(texts(warnings@) =~= ow + Seq::<Seq<char>>::empty());
            }
            let was_within_bg = any_background(&state.body_state.span_stack);
            let target_content_type = if was_within_bg { ContentType::Background } else { ContentType::Main };
            let mut p_opt = state.body_state.current_p_element_data.take();
            match p_opt {
                Some(mut p_data) => {
                    let idx = get_or_create_target_annotated_track(&mut p_data, target_content_type);
                    if p_data.tracks_accumulator[idx].content.words.len() == 0 {
                        p_data.tracks_accumulator[idx].content.words.push(Word { syllables: Vec::new(), furigana: None });
                    }
                    let end = if end_ms >= start_ms { end_ms } else { start_ms };
                    process_syllable(
                        start_ms,
                        end,
                        text,
                        was_within_bg,
                        &mut state.text_processing_buffer,
                        &mut p_data.tracks_accumulator[idx].content.words[0].syllables,
                    );
                    if p_data.tracks_accumulator[idx].content.words[0].syllables.len() > 0 {
                        state.body_state.last_syllable_info = LastSyllableInfo::EndedSyllable {
                            was_background: was_within_bg,
                        };
                    }
                    state.body_state.current_p_element_data = Some(p_data);
                },
                None => {},
            }
        },
        _ => {
            if !is_blank(text) {
                if state.is_line_timing_mode {
                    let mut p_opt = state.body_state.current_p_element_data.take();
                    match p_opt {
                        Some(mut p_data) => {
                            if !text_is_empty(p_data.line_text_accumulator.as_str()) && !ends_with_whitespace(
                                p_data.line_text_accumulator.as_str(),
                            ) {
                                push_char(&mut p_data.line_text_accumulator, ' ');
                            }
                            let t = trim_string(text);
                            push_str(&mut p_data.line_text_accumulator, t.as_str());
                            state.body_state.current_p_element_data = Some(p_data);
                        },
                        None => {},
                    }
                } else {
                    let mut w = to_owned_string("逐字模式下，span缺少时间信息，文本 '");
                    let t = trim_string(text);
                    push_escaped(&mut w, t.as_str());
                    push_str(&mut w, "' 被忽略。");
                    warnings.push(w);
                    assert(texts(warnings@) =~= ow + seq![untimed_span_warning(trim(text@))]);
                }
            }
            if is_blank(text) || state.is_line_timing_mode {
                assert(texts(warnings@) =~= ow + Seq::<Seq<char>>::empty());
            }
        },
    }
    Ok(())
}

/// The language `a`, else `b`.
pub open spec fn lang_or(a: Option<String>, b: Option<String>) -> Option<Seq<char>> {
    match a {
        Some(l) => Some(l@),
        None => opt_text(b),
    }
}

/// The metadata of an annotation track: its language, if any, then its
/// scheme, if any.
pub open spec fn annotation_meta(t: LyricTrack, lang: Option<Seq<char>>, scheme: Option<Seq<char>>) -> bool {
    let n = if lang is Some {
        1int
    } else {
        0int
    };
    &&& t.metadata@.len() == n + if scheme is Some {
        1int
    } else {
        0int
    }
    &&& lang matches Some(l) ==> crate::types::same_track_key(t.metadata@[0].0, TrackMetadataKey::Language)
        && t.metadata@[0].1@ == l
    &&& scheme matches Some(sc) ==> crate::types::same_track_key(t.metadata@[n].0, TrackMetadataKey::Scheme)
        && t.metadata@[n].1@ == sc
}

/// `t1` is `t0` with the untimed annotation `text` added to the content
/// track of type `ct` (see `target_index`): as a translation with the
/// language `lang` for a translation span, as a romanisation with `lang`
/// and the scheme `scheme` for a romanisation span, and as nothing for
/// another span; the other tracks are unchanged.
pub open spec fn annotation_put(
    t0: Seq<AnnotatedTrack>,
    t1: Seq<AnnotatedTrack>,
    ct: ContentType,
    role: SpanRole,
    text: Seq<char>,
    lang: Option<Seq<char>>,
    scheme: Option<Seq<char>>,
) -> bool {
    let i = target_index(t0, ct);
    let fresh = !(i < t0.len());
    let tr0 = if fresh {
        Seq::empty()
    } else {
        t0[i].translations@
    };
    let ro0 = if fresh {
        Seq::empty()
    } else {
        t0[i].romanizations@
    };
    &&& t1.len() == if fresh {
        t0.len() + 1int
    } else {
        t0.len() as int
    }
    &&& forall|j: int| 0 <= j < t0.len() && j != i ==> #[trigger] t1[j] == t0[j]
    &&& t1[i].content_type == ct
    &&& !fresh ==> t1[i].content == t0[i].content
    &&& fresh ==> t1[i].content.words@.len() == 0
    &&& if role == SpanRole::Translation {
        &&& t1[i].romanizations@ =~= ro0
        &&& t1[i].translations@.len() == tr0.len() + 1
        &&& t1[i].translations@.drop_last() =~= tr0
        &&& crate::types::is_single_syllable_track(t1[i].translations@.last(), text, 0, 0)
        &&& annotation_meta(t1[i].translations@.last(), lang, None)
    } else if role == SpanRole::Romanization {
        &&& t1[i].translations@ =~= tr0
        &&& t1[i].romanizations@.len() == ro0.len() + 1
        &&& t1[i].romanizations@.drop_last() =~= ro0
        &&& crate::types::is_single_syllable_track(t1[i].romanizations@.last(), text, 0, 0)
        &&& annotation_meta(t1[i].romanizations@.last(), lang, scheme)
    } else {
        t1[i].translations@ =~= tr0 && t1[i].romanizations@ =~= ro0
    }
}

/// Handles the end of a translation or romanisation `<span>`: its text,
/// normalised, becomes an untimed annotation of the main or background
/// track, with the span's language (else the default one) and scheme.
pub fn handle_auxiliary_span_end(state: &mut TtmlParserState, ctx: &SpanContext, text: &str) -> (r: Result<
    (),
    ConvertError,
>)
    requires
        old(state).wf(),
        old(state).body_state.in_p,
    ensures
        final(state).is_line_timing_mode == old(state).is_line_timing_mode,
        r matches Err(e) ==> is_parse_error(e),
        final(state).wf(),
        final(state).body_state.in_p,
        r is Ok,
        final(state).agent_store == old(state).agent_store,
        final(state).in_metadata == old(state).in_metadata,
        final(state).text_buffer == old(state).text_buffer,
        final(state).metadata_state == old(state).metadata_state,
        final(state).body_state.span_stack == old(state).body_state.span_stack,
        final(state).body_state.last_syllable_info == old(state).body_state.last_syllable_info,
        annotation_span_closed(
            old(state).body_state.current_p_element_data->Some_0,
            final(state).body_state.current_p_element_data->Some_0,
            old(state).body_state.span_stack@,
            old(state).default_translation_lang,
            old(state).default_romanization_lang,
            *ctx,
            text@,
        ),
{
    normalize_text_whitespace_into(text, &mut state.text_processing_buffer);
    if text_is_empty(state.text_processing_buffer.as_str()) {
        return Ok(());
    }
    let was_within_bg = any_background(&state.body_state.span_stack);
    let target_content_type = if was_within_bg { ContentType::Background } else { ContentType::Main };
    let mut p_opt = state.body_state.current_p_element_data.take();
    match p_opt {
        Some(mut p_data) => {
            let idx = get_or_create_target_annotated_track(&mut p_data, target_content_type);
            let mut aux_track = crate::types::single_syllable_track(state.text_processing_buffer.as_str(), 0, 0);
            match ctx.role {
                SpanRole::Translation => {
                    let lang = match &ctx.lang {
                        Some(l) => Some(to_owned_string(l.as_str())),
                        None => copy_opt(&state.default_translation_lang),
                    };
                    match lang {
                        Some(l) => aux_track.metadata.push((TrackMetadataKey::Language, l)),
                        None => {},
                    }
                    p_data.tracks_accumulator[idx].translations.push(aux_track);
                },
                SpanRole::Romanization => {
                    let lang = match &ctx.lang {
                        Some(l) => Some(to_owned_string(l.as_str())),
                        None => copy_opt(&state.default_romanization_lang),
                    };
                    match lang {
                        Some(l) => aux_track.metadata.push((TrackMetadataKey::Language, l)),
                        None => {},
                    }
                    match &ctx.scheme {
                        Some(s) => aux_track.metadata.push((TrackMetadataKey::Scheme, to_owned_string(s.as_str()))),
                        None => {},
                    }
                    p_data.tracks_accumulator[idx].romanizations.push(aux_track);
                },
                _ => {},
            }
            state.body_state.current_p_element_data = Some(p_data);
        },
        None => {},
    }
    Ok(())
}

/// Whether no word of the content track has a syllable.
pub open spec fn no_syllables(t: AnnotatedTrack) -> bool {
    forall|w: int| 0 <= w < t.content.words@.len() ==> #[trigger] t.content.words@[w].syllables@.len() == 0
}

/// `t1` is `t0` with the single syllable `text`, timed `start..end` (at
/// least `start`), given to the first word of the background track `i`,
/// which had none; the other tracks, and the rest of track `i`, are
/// unchanged.
pub open spec fn background_syllable_put(
    t0: Seq<AnnotatedTrack>,
    t1: Seq<AnnotatedTrack>,
    i: int,
    text: Seq<char>,
    start: u64,
    end: u64,
    space: bool,
) -> bool {
    &&& t1.len() == t0.len()
    &&& forall|j: int| 0 <= j < t0.len() && j != i ==> #[trigger] t1[j] == t0[j]
    &&& t1[i].content_type == t0[i].content_type
    &&& t1[i].translations == t0[i].translations
    &&& t1[i].romanizations == t0[i].romanizations
    &&& t1[i].content.metadata == t0[i].content.metadata
    &&& t1[i].content.words@.len() == if t0[i].content.words@.len() == 0 {
        1int
    } else {
        t0[i].content.words@.len() as int
    }
    &&& t1[i].content.words@[0].syllables@.len() == 1
    &&& syllable_is(
        t1[i].content.words@[0].syllables@[0],
        text,
        start,
        max64(start, end),
        Some(sat_sub64(end, start)),
        space,
    )
}

/// `t1` is `t0` after the trimmed text `tt` directly inside a background
/// container timed `start..end`: when the text is not empty, the container
/// is timed, and the line's background track has no syllable, the text
/// (without brackets) becomes its syllable; otherwise nothing changes.
pub open spec fn background_text_put(
    t0: Vec<AnnotatedTrack>,
    t1: Vec<AnnotatedTrack>,
    tt: Seq<char>,
    start: Option<u64>,
    end: Option<u64>,
    space: bool,
) -> bool {
    match (start, end, crate::types::first_index_of_type(t0@, ContentType::Background)) {
        (Some(s), Some(e), Some(i)) => if tt.len() > 0 && no_syllables(t0@[i]) {
            background_syllable_put(t0@, t1@, i, clean_parens(tt), s, e, space)
        } else {
            t1 == t0
        },
        _ => t1 == t0,
    }
}

/// Handles the end of a background container `<span>`: text directly in it
/// becomes the background syllable when the container is timed and has no
/// syllable yet; otherwise it is dropped with a warning.
pub fn handle_background_span_end(
    state: &mut TtmlParserState,
    ctx: &SpanContext,
    text: &str,
    warnings: &mut Vec<String>,
) -> (r: Result<(), ConvertError>)
    requires
        old(state).wf(),
        old(state).body_state.in_p,
    ensures
        final(state).is_line_timing_mode == old(state).is_line_timing_mode,
        r matches Err(e) ==> is_parse_error(e),
        final(state).wf(),
        final(state).body_state.in_p,
        r is Ok,
        final(state).agent_store == old(state).agent_store,
        final(state).in_metadata == old(state).in_metadata,
        final(state).text_buffer == old(state).text_buffer,
        final(state).metadata_state == old(state).metadata_state,
        final(state).body_state.span_stack == old(state).body_state.span_stack,
        background_span_closed(
            old(state).body_state.current_p_element_data->Some_0,
            final(state).body_state.current_p_element_data->Some_0,
            *ctx,
            text@,
        ),
{
    let trimmed_text = trim_string(text);
    if text_is_empty(trimmed_text.as_str()) {
        return Ok(());
    }
    match (ctx.start_ms, ctx.end_ms) {
        (Some(start_ms), Some(end_ms)) => {
            let mut p_opt = state.body_state.current_p_element_data.take();
            match p_opt {
                Some(mut p_data) => {
                    proof {
                        crate::types::lemma_first_index_of_type(p_data.tracks_accumulator@, ContentType::Background);
                    }
                    match crate::types::first_of_type(&p_data.tracks_accumulator, ContentType::Background) {
                        Some(idx) => {
                            let mut no_syllables = true;
                            let mut k: usize = 0;
                            while k < p_data.tracks_accumulator[idx].content.words.len()
                                invariant
                                    idx < p_data.tracks_accumulator@.len(),
                                    k <= p_data.tracks_accumulator@[idx as int].content.words@.len(),
                                    no_syllables == forall|w: int|
                                        0 <= w < k ==> #[trigger] p_data.tracks_accumulator@[idx as int].content.words@[w].syllables@.len()
                                            == 0,
                                decreases p_data.tracks_accumulator@[idx as int].content.words@.len() - k,
                            {
                                if p_data.tracks_accumulator[idx].content.words[k].syllables.len() > 0 {
                                    no_syllables = false;
                                }
                                k = k + 1;
                            }
                            if no_syllables {
                                clean_parentheses_from_bg_text_into(
                                    trimmed_text.as_str(),
                                    &mut state.text_processing_buffer,
                                );
                                let duration = if end_ms >= start_ms { end_ms - start_ms } else { 0 };
                                let syllable = LyricSyllable {
                                    text: to_owned_string(state.text_processing_buffer.as_str()),
                                    start_ms,
                                    end_ms: if end_ms >= start_ms { end_ms } else { start_ms },
                                    duration_ms: Some(duration),
                                    ends_with_space: ends_with_whitespace(text),
                                };
                                if p_data.tracks_accumulator[idx].content.words.len() == 0 {
                                    p_data.tracks_accumulator[idx].content.words.push(
                                        Word { syllables: Vec::new(), furigana: None },
                                    );
                                }
                                p_data.tracks_accumulator[idx].content.words[0].syllables.push(syllable);
                                state.body_state.last_syllable_info = LastSyllableInfo::EndedSyllable {
                                    was_background: true,
                                };
                            } else {
                                let mut w = to_owned_string("<span ttm:role='x-bg'> 直接包含文本 '");
                                push_escaped(&mut w, trimmed_text.as_str());
                                push_str(&mut w, "'，但其内部已有音节，此直接文本被忽略。");
                                warnings.push(w);
                            }
                        },
                        None => {},
                    }
                    state.body_state.current_p_element_data = Some(p_data);
                },
                None => {},
            }
        },
        _ => {
            let mut w = to_owned_string("<span ttm:role='x-bg'> 直接包含文本 '");
            push_escaped(&mut w, trimmed_text.as_str());
            push_str(&mut w, "'，但缺少时间信息，忽略。");
            warnings.push(w);
        },
    }
    Ok(())
}

/// `s1` is the state `s0` after `</span>` inside a `<p>`: the innermost
/// span is closed, its text taken, and the line data changed as its role
/// says (see `generic_span_closed`, `background_span_closed` and
/// `annotation_span_closed`).
pub open spec fn span_end_done(s0: TtmlParserState, s1: TtmlParserState) -> bool {
    let st = s0.body_state.span_stack@;
    let d0 = s0.body_state.current_p_element_data->Some_0;
    let d1 = s1.body_state.current_p_element_data->Some_0;
    if st.len() == 0 {
        s1 == s0
    } else {
        let ended = st.last();
        let raw = s0.text_buffer@;
        &&& s1.body_state.span_stack@ == st.drop_last()
        &&& s1.text_buffer@.len() == 0
        &&& match ended.role {
            SpanRole::Generic => generic_span_closed(
                d0,
                d1,
                st.drop_last(),
                s0.is_line_timing_mode,
                ended,
                raw,
            ),
            SpanRole::Background => background_span_closed(d0, d1, ended, raw),
            _ => annotation_span_closed(
                d0,
                d1,
                st.drop_last(),
                s0.default_translation_lang,
                s0.default_romanization_lang,
                ended,
                raw,
            ),
        }
    }
}

/// Handles `</span>`: the innermost open span is closed and its text goes
/// to the handler of its role.
pub fn process_span_end(state: &mut TtmlParserState, warnings: &mut Vec<String>) -> (r: Result<(), ConvertError>)
    requires
        old(state).wf(),
        old(state).body_state.in_p,
    ensures
        final(state).is_line_timing_mode == old(state).is_line_timing_mode,
        r matches Err(e) ==> is_parse_error(e),
        final(state).wf(),
        final(state).body_state.in_p,
        r is Ok,
        final(state).agent_store == old(state).agent_store,
        final(state).in_metadata == old(state).in_metadata,
        final(state).metadata_state == old(state).metadata_state,
        span_end_done(*old(state), *final(state)),
{
    if state.body_state.span_stack.len() == 0 {
        return Ok(());
    }
    match state.body_state.span_stack.pop() {
        Some(ended_span_ctx) => {
            let mut raw_text_from_buffer = String::new();
            std::mem::swap(&mut raw_text_from_buffer, &mut state.text_buffer);
            match ended_span_ctx.role {
                SpanRole::Generic => handle_generic_span_end(
                    state,
                    &ended_span_ctx,
                    raw_text_from_buffer.as_str(),
                    warnings,
                ),
                SpanRole::Translation | SpanRole::Romanization => handle_auxiliary_span_end(
                    state,
                    &ended_span_ctx,
                    raw_text_from_buffer.as_str(),
                ),
                SpanRole::Background => handle_background_span_end(
                    state,
                    &ended_span_ctx,
                    raw_text_from_buffer.as_str(),
                    warnings,
                ),
            }
        },
        None => Ok(()),
    }
}

// ---------------------------------------------------------------------------
// The end of a line
// ---------------------------------------------------------------------------

/// The content track `b` holds, in place of the words `a_words`, the one
/// syllable `n` timed `start..end` when `n` is not empty.
pub open spec fn line_text_syllable(a_words: Seq<Word>, b: AnnotatedTrack, n: Seq<char>, start: u64, end: u64) -> bool {
    if n.len() > 0 {
        &&& b.content.words@.len() == 1
        &&& b.content.words@[0].furigana is None
        &&& b.content.words@[0].syllables@.len() == 1
        &&& syllable_is(b.content.words@[0].syllables@[0], n, start, end, None, false)
    } else {
        b.content.words@ =~= a_words
    }
}

/// `t1` is `t0` after the line text `text` of a line timed `start..end` is
/// placed: when the main track has no syllable and the text is not blank,
/// the normalised text becomes the main track's only syllable (see
/// `line_text_syllable`), the main track being created first when missing.
pub open spec fn line_text_placed(
    t0: Seq<AnnotatedTrack>,
    t1: Seq<AnnotatedTrack>,
    text: Seq<char>,
    start: u64,
    end: u64,
) -> bool {
    let n = normalize_ws(text);
    match crate::types::first_index_of_type(t0, ContentType::Main) {
        Some(i) => if !no_syllables(t0[i]) || all_ws(text) {
            t1 =~= t0
        } else {
            &&& t1.len() == t0.len()
            &&& forall|j: int| 0 <= j < t0.len() && j != i ==> #[trigger] t1[j] == t0[j]
            &&& t1[i].content_type == t0[i].content_type
            &&& t1[i].translations == t0[i].translations
            &&& t1[i].romanizations == t0[i].romanizations
            &&& t1[i].content.metadata == t0[i].content.metadata
            &&& line_text_syllable(t0[i].content.words@, t1[i], n, start, end)
        },
        None => if all_ws(text) {
            t1 =~= t0
        } else {
            &&& t1.len() == t0.len() + 1
            &&& t1.skip(1) =~= t0
            &&& t1[0].content_type == ContentType::Main
            &&& t1[0].translations@.len() == 0
            &&& t1[0].romanizations@.len() == 0
            &&& t1[0].content.metadata@.len() == 0
            &&& line_text_syllable(Seq::empty(), t1[0], n, start, end)
        },
    }
}

/// `b` is the track `a` with copies of the annotations of `set` added.
pub open spec fn annotations_copied(a: AnnotatedTrack, b: AnnotatedTrack, set: AuxiliaryTrackSet) -> bool {
    &&& b.content_type == a.content_type
    &&& b.content == a.content
    &&& tracks_copied(set.translations@, a.translations@, b.translations@)
    &&& tracks_copied(set.romanizations@, a.romanizations@, b.romanizations@)
}

/// `t2` is `t1` with the timed annotations `d` added: those of the main
/// vocals to the first main track, those of the background vocals to the
/// first background track.
pub open spec fn timed_annotations_added(t1: Seq<AnnotatedTrack>, t2: Seq<AnnotatedTrack>, d: DetailedAuxiliaryTracks) -> bool {
    let mi = crate::types::first_index_of_type(t1, ContentType::Main);
    let bi = crate::types::first_index_of_type(t1, ContentType::Background);
    &&& t2.len() == t1.len()
    &&& forall|j: int| 0 <= j < t1.len() && mi != Some(j) && bi != Some(j) ==> #[trigger] t2[j] == t1[j]
    &&& mi matches Some(i) ==> annotations_copied(t1[i], t2[i], d.main_tracks)
    &&& bi matches Some(i) ==> annotations_copied(t1[i], t2[i], d.background_tracks)
}

/// `t2` is `t1` after the head's timed annotations for the line's key are
/// added (see `timed_annotations_added`); without a key, or without
/// annotations for it, nothing changes.
pub open spec fn timed_step(
    t1: Seq<AnnotatedTrack>,
    t2: Seq<AnnotatedTrack>,
    key: Option<String>,
    map: Seq<(String, DetailedAuxiliaryTracks)>,
) -> bool {
    match key {
        Some(k) => if has_timed_entry(map, k@) {
            exists|i: int| #[trigger] first_key_at(map, k@, i) && timed_annotations_added(t1, t2, map[i].1)
        } else {
            t2 =~= t1
        },
        None => t2 =~= t1,
    }
}

/// Whether one of the tracks holds something.
pub open spec fn tracks_have_data(tracks: Seq<AnnotatedTrack>) -> bool {
    exists|t: int| 0 <= t < tracks.len() && !#[trigger] track_is_empty(tracks[t])
}

/// Places the line text of a line timed by line (see `line_text_placed`).
#[verifier::spinoff_prover]
fn place_line_text(p: &mut CurrentPElementData, buffer: &mut String)
    ensures
        same_line_head(*old(p), *final(p)),
        final(p).line_text_accumulator == old(p).line_text_accumulator,
        line_text_placed(
            old(p).tracks_accumulator@,
            final(p).tracks_accumulator@,
            old(p).line_text_accumulator@,
            old(p).start_ms,
            old(p).end_ms,
        ),
{
    proof {
        crate::types::lemma_first_index_of_type(p.tracks_accumulator@, ContentType::Main);
    }
    let main_idx = crate::types::first_of_type(&p.tracks_accumulator, ContentType::Main);
    let main_track_has_syllables = match main_idx {
        Some(i) => {
            let mut any = false;
            let mut k: usize = 0;
            while k < p.tracks_accumulator[i].content.words.len()
                invariant
                    i < p.tracks_accumulator@.len(),
                    k <= p.tracks_accumulator@[i as int].content.words@.len(),
                    !any == forall|w: int|
                        0 <= w < k ==> #[trigger] p.tracks_accumulator@[i as int].content.words@[w].syllables@.len()
                            == 0,
                decreases p.tracks_accumulator@[i as int].content.words@.len() - k,
            {
                if p.tracks_accumulator[i].content.words[k].syllables.len() > 0 {
                    any = true;
                }
                k = k + 1;
            }
            any
        },
        None => false,
    };
    if !main_track_has_syllables && !is_blank(p.line_text_accumulator.as_str()) {
        let idx: usize = match main_idx {
            Some(i) => i,
            None => {
                p.tracks_accumulator.insert(0, AnnotatedTrack::empty(ContentType::Main));
                0
            },
        };
        normalize_text_whitespace_into(p.line_text_accumulator.as_str(), buffer);
        if !text_is_empty(buffer.as_str()) {
            let syllable = LyricSyllable::new(to_owned_string(buffer.as_str()), p.start_ms, p.end_ms);
            let mut syllables: Vec<LyricSyllable> = Vec::new();
            syllables.push(syllable);
            let mut words: Vec<Word> = Vec::new();
            words.push(Word { syllables, furigana: None });
            p.tracks_accumulator[idx].content.words = words;
        }
    }
}

/// Adds the head's timed annotations for the line's key (see `timed_step`).
fn add_timed_annotations(p: &mut CurrentPElementData, map: &Vec<(String, DetailedAuxiliaryTracks)>)
    ensures
        same_line_head(*old(p), *final(p)),
        final(p).line_text_accumulator == old(p).line_text_accumulator,
        timed_step(old(p).tracks_accumulator@, final(p).tracks_accumulator@, old(p).itunes_key, map@),
{
    match &p.itunes_key {
        Some(key) => match find_timed(map, key.as_str()) {
            Some(ti) => {
                let detailed = &map[ti].1;
                proof {
                    crate::types::lemma_first_index_of_type(p.tracks_accumulator@, ContentType::Main);
                    crate::types::lemma_first_index_of_type(p.tracks_accumulator@, ContentType::Background);
                }
                let ghost t1 = p.tracks_accumulator@;
                let main_idx = crate::types::first_of_type(&p.tracks_accumulator, ContentType::Main);
                let bg_idx = crate::types::first_of_type(&p.tracks_accumulator, ContentType::Background);
                match main_idx {
                    Some(mi) => {
                        extend_with_copies(&mut p.tracks_accumulator[mi].translations, &detailed.main_tracks.translations);
                        extend_with_copies(&mut p.tracks_accumulator[mi].romanizations, &detailed.main_tracks.romanizations);
                    },
                    None => {},
                }
                let ghost t_mid = p.tracks_accumulator@;
                assert(forall|j: int| 0 <= j < t1.len() && main_idx != Some(j as usize) ==> #[trigger] t_mid[j] == t1[j]);
                match bg_idx {
                    Some(bi) => {
                        extend_with_copies(
                            &mut p.tracks_accumulator[bi].translations,
                            &detailed.background_tracks.translations,
                        );
                        extend_with_copies(
                            &mut p.tracks_accumulator[bi].romanizations,
                            &detailed.background_tracks.romanizations,
                        );
                    },
                    None => {},
                }
                assert(first_key_at(map@, key@, ti as int));
                assert(timed_annotations_added(t1, p.tracks_accumulator@, map@[ti as int].1));
            },
            None => {},
        },
        None => {},
    }
}

/// The line that a `<p>` finishes as: its line text is placed (see
/// `line_text_placed`), the head's timed annotations for its key are added
/// (see `timed_step`), and its end time becomes the latest end of any of
/// its syllables if that is later. A line that holds nothing is dropped.
pub fn finalize_p_element(
    p_data: CurrentPElementData,
    lines: &mut Vec<LyricLine>,
    state: &mut TtmlParserState,
    warnings: &mut Vec<String>,
)
    requires
        old(state).wf(),
    ensures
        final(state).is_line_timing_mode == old(state).is_line_timing_mode,
        lines_have_data(old(lines)@) ==> lines_have_data(final(lines)@),
        final(state).wf(),
        final(state).agent_store == old(state).agent_store,
        final(state).body_state == old(state).body_state,
        final(state).metadata_state == old(state).metadata_state,
        final(state).in_metadata == old(state).in_metadata,
        exists|t1: Seq<AnnotatedTrack>|
            #[trigger] line_text_placed(
                p_data.tracks_accumulator@,
                t1,
                p_data.line_text_accumulator@,
                p_data.start_ms,
                p_data.end_ms,
            ) && line_finished(
                t1,
                p_data,
                old(state).metadata_state.timed_track_map@,
                old(lines)@,
                final(lines)@,
            ),
{
    let mut p = p_data;
    place_line_text(&mut p, &mut state.text_processing_buffer);
    let ghost t1 = p.tracks_accumulator@;
    add_timed_annotations(&mut p, &state.metadata_state.timed_track_map);
    let ghost t2 = p.tracks_accumulator@;
    let max_track_end_ms = line_tracks_end_exec(&p.tracks_accumulator);
    let end_ms = if p.end_ms >= max_track_end_ms { p.end_ms } else { max_track_end_ms };
    let new_line = LyricLine {
        tracks: p.tracks_accumulator,
        start_ms: p.start_ms,
        end_ms,
        agent: p.agent,
        song_part: p.song_part,
        itunes_key: p.itunes_key,
    };
    let ghost l = new_line;
    if line_has_data_exec(&new_line) {
        push_line(lines, new_line);
        assert(lines@.last() == l);
    }
    assert(l.tracks@ == t2);
    assert(line_has_data(l) == tracks_have_data(t2));
    assert(timed_step(t1, t2, p_data.itunes_key, state.metadata_state.timed_track_map@));
    assert(line_finished(t1, p_data, state.metadata_state.timed_track_map@, old(lines)@, lines@));
    assert(line_text_placed(
        p_data.tracks_accumulator@,
        t1,
        p_data.line_text_accumulator@,
        p_data.start_ms,
        p_data.end_ms,
    ));
}

/// `l1` is the lines `l0` after the line of `p` (its tracks placed as `t1`)
/// is finished: the head's timed annotations are added (see `timed_step`);
/// a line that then holds something is added, with the times, singer, song
/// part and key of `p`, its end time made the latest end of its syllables
/// when that is later; a line that holds nothing is dropped.
pub open spec fn line_finished(
    t1: Seq<AnnotatedTrack>,
    p: CurrentPElementData,
    map: Seq<(String, DetailedAuxiliaryTracks)>,
    l0: Seq<LyricLine>,
    l1: Seq<LyricLine>,
) -> bool {
    exists|t2: Seq<AnnotatedTrack>|
        #[trigger] timed_step(t1, t2, p.itunes_key, map) && if tracks_have_data(t2) {
            let l = l1.last();
            &&& l1.len() == l0.len() + 1
            &&& l1.drop_last() =~= l0
            &&& l.tracks@ == t2
            &&& l.start_ms == p.start_ms
            &&& l.end_ms == max64(p.end_ms, line_tracks_end(t2))
            &&& l.agent == p.agent
            &&& l.song_part == p.song_part
            &&& l.itunes_key == p.itunes_key
        } else {
            l1 == l0
        }
}

/// Whether a syllable of one of the tracks has the text `text`.
fn tracks_have_text(tracks: &Vec<LyricTrack>, text: &str) -> (r: bool)
    ensures
        r == some_track_has_text(tracks@, text@),
{
    let mut i: usize = 0;
    while i < tracks.len()
        invariant
            i <= tracks@.len(),
            forall|k: int| 0 <= k < i ==> !track_has_text(#[trigger] tracks@[k], text@),
        decreases tracks@.len() - i,
    {
        let mut w: usize = 0;
        while w < tracks[i].words.len()
            invariant
                i < tracks@.len(),
                w <= tracks@[i as int].words@.len(),
                forall|k: int| 0 <= k < w ==> !word_has_text(#[trigger] tracks@[i as int].words@[k], text@),
            decreases tracks@[i as int].words@.len() - w,
        {
            let mut s: usize = 0;
            while s < tracks[i].words[w].syllables.len()
                invariant
                    i < tracks@.len(),
                    w < tracks@[i as int].words@.len(),
                    s <= tracks@[i as int].words@[w as int].syllables@.len(),
                    forall|k: int| 0 <= k < s ==> (#[trigger] tracks@[i as int].words@[w as int].syllables@[k]).text@ != text@,
                decreases tracks@[i as int].words@[w as int].syllables@.len() - s,
            {
                if str_eq(tracks[i].words[w].syllables[s].text.as_str(), text) {
                    assert(word_has_text(tracks@[i as int].words@[w as int], text@));
                    assert(track_has_text(tracks@[i as int], text@));
                    return true;
                }
                s = s + 1;
            }
            w = w + 1;
        }
        i = i + 1;
    }
    false
}

/// Whether a syllable of the word has the text `text`.
pub open spec fn word_has_text(w: Word, text: Seq<char>) -> bool {
    exists|k: int| 0 <= k < w.syllables@.len() && (#[trigger] w.syllables@[k]).text@ == text
}

/// Whether a syllable of the track has the text `text`.
pub open spec fn track_has_text(t: LyricTrack, text: Seq<char>) -> bool {
    exists|k: int| 0 <= k < t.words@.len() && word_has_text(#[trigger] t.words@[k], text)
}

/// Whether a syllable of one of the tracks has the text `text`.
pub open spec fn some_track_has_text(ts: Seq<LyricTrack>, text: Seq<char>) -> bool {
    exists|k: int| 0 <= k < ts.len() && track_has_text(#[trigger] ts[k], text)
}

/// The translations `b` are `a` with the line translation `text` (in the
/// language `lang`) added, unless it is missing or a syllable already has
/// that text.
pub open spec fn translation_appended(
    a: Seq<LyricTrack>,
    b: Seq<LyricTrack>,
    text: Option<String>,
    lang: Option<String>,
) -> bool {
    match text {
        Some(m) => if some_track_has_text(a, m@) {
            b =~= a
        } else {
            &&& b.len() == a.len() + 1
            &&& b.drop_last() =~= a
            &&& crate::types::is_single_syllable_track(b.last(), m@, 0, 0)
            &&& crate::types::has_only_entry(b.last(), TrackMetadataKey::Language, opt_text(lang))
        },
        None => b =~= a,
    }
}

/// `t1` is `t0` with the head's line translation `e` added: its main text
/// to the translations of the first main track (when there is one), its
/// background text to those of the background track (created when
/// missing); see `translation_appended`.
pub open spec fn head_translation_added(
    t0: Seq<AnnotatedTrack>,
    t1: Seq<AnnotatedTrack>,
    e: (String, LineTranslation, Option<String>),
) -> bool {
    let mi = crate::types::first_index_of_type(t0, ContentType::Main);
    let bi = target_index(t0, ContentType::Background);
    let creates = e.1.background is Some && bi == t0.len();
    &&& t1.len() == if creates {
        t0.len() + 1int
    } else {
        t0.len() as int
    }
    &&& forall|j: int|
        0 <= j < t0.len() && mi != Some(j) && (e.1.background is None || j != bi) ==> #[trigger] t1[j] == t0[j]
    &&& mi matches Some(i) ==> {
        &&& t1[i].content_type == t0[i].content_type
        &&& t1[i].content == t0[i].content
        &&& t1[i].romanizations == t0[i].romanizations
        &&& translation_appended(t0[i].translations@, t1[i].translations@, e.1.main, e.2)
    }
    &&& e.1.background is Some ==> {
        &&& t1[bi].content_type == ContentType::Background
        &&& if creates {
            &&& t1[bi].content.words@.len() == 0
            &&& t1[bi].content.metadata@.len() == 0
            &&& t1[bi].romanizations@.len() == 0
            &&& translation_appended(Seq::empty(), t1[bi].translations@, e.1.background, e.2)
        } else {
            &&& t1[bi].content == t0[bi].content
            &&& t1[bi].romanizations == t0[bi].romanizations
            &&& translation_appended(t0[bi].translations@, t1[bi].translations@, e.1.background, e.2)
        }
    }
}

/// `t1` is `t0` after the head's line translation for the key `key` is
/// added (see `head_translation_added`); without a key or a translation
/// for it, nothing changes.
pub open spec fn head_translation_step(
    t0: Seq<AnnotatedTrack>,
    t1: Seq<AnnotatedTrack>,
    key: Option<String>,
    map: Seq<(String, LineTranslation, Option<String>)>,
) -> bool {
    match key {
        Some(k) => if has_translation_key(map, k@) {
            exists|i: int| #[trigger] first_translation_at(map, k@, i) && head_translation_added(t0, t1, map[i])
        } else {
            t1 =~= t0
        },
        None => t1 =~= t0,
    }
}

/// Where the first track of a kind is depends only on the kinds of the
/// tracks.
proof fn lemma_first_index_same_types(a: Seq<AnnotatedTrack>, b: Seq<AnnotatedTrack>, ct: ContentType)
    requires
        a.len() == b.len(),
        forall|j: int| 0 <= j < a.len() ==> #[trigger] a[j].content_type == b[j].content_type,
    ensures
        crate::types::first_index_of_type(a, ct) == crate::types::first_index_of_type(b, ct),
    decreases a.len(),
{
    if a.len() > 0 {
        assert forall|j: int| 0 <= j < a.len() - 1 implies #[trigger] a.drop_last()[j].content_type
            == b.drop_last()[j].content_type by {
            assert(a.drop_last()[j] == a[j]);
            assert(b.drop_last()[j] == b[j]);
        }
        lemma_first_index_same_types(a.drop_last(), b.drop_last(), ct);
        assert(a.last().content_type == b.last().content_type);
    }
}

/// Adds the head's line translation for the line's key (see
/// `head_translation_step`).
fn add_head_translations(p: &mut CurrentPElementData, map: &Vec<(String, LineTranslation, Option<String>)>)
    ensures
        same_line_head(*old(p), *final(p)),
        final(p).line_text_accumulator == old(p).line_text_accumulator,
        head_translation_step(old(p).tracks_accumulator@, final(p).tracks_accumulator@, old(p).itunes_key, map@),
{
    match &p.itunes_key {
        Some(key) => match find_line_translation(map, key.as_str()) {
            Some(ti) => {
                let entry = &map[ti];
                let ghost t0 = p.tracks_accumulator@;
                proof {
                    crate::types::lemma_first_index_of_type(p.tracks_accumulator@, ContentType::Main);
                    crate::types::lemma_first_index_of_type(p.tracks_accumulator@, ContentType::Background);
                }
                let main_idx = crate::types::first_of_type(&p.tracks_accumulator, ContentType::Main);
                match &entry.1.main {
                    Some(main_text) => match main_idx {
                        Some(mi) => {
                            if !tracks_have_text(&p.tracks_accumulator[mi].translations, main_text.as_str()) {
                                let t = create_simple_translation_track(main_text.as_str(), entry.2.as_ref());
                                p.tracks_accumulator[mi].translations.push(t);
                            }
                        },
                        None => {},
                    },
                    None => {},
                }
                let ghost t_mid = p.tracks_accumulator@;
                assert(t_mid.len() == t0.len());
                assert(forall|j: int| 0 <= j < t0.len() && main_idx != Some(j as usize) ==> #[trigger] t_mid[j] == t0[j]);
                proof {
                    assert forall|j: int| 0 <= j < t0.len() implies #[trigger] t_mid[j].content_type
                        == t0[j].content_type by {}
                    lemma_first_index_same_types(t0, t_mid, ContentType::Background);
                }
                match &entry.1.background {
                    Some(bg_text) => {
                        let bi = get_or_create_target_annotated_track(p, ContentType::Background);
                        let ghost t_created = p.tracks_accumulator@;
                        if !tracks_have_text(&p.tracks_accumulator[bi].translations, bg_text.as_str()) {
                            let t = create_simple_translation_track(bg_text.as_str(), entry.2.as_ref());
                            p.tracks_accumulator[bi].translations.push(t);
                        }
                        assert(forall|j: int| 0 <= j < t_mid.len() && j != bi ==> #[trigger] p.tracks_accumulator@[j] == t_created[j]);
                        assert(forall|j: int| 0 <= j < t_mid.len() && j != bi ==> #[trigger] t_created[j] == t_mid[j]);
                    },
                    None => {},
                }
                assert(first_translation_at(map@, key@, ti as int));
                assert(head_translation_added(t0, p.tracks_accumulator@, map@[ti as int]));
            },
            None => {},
        },
        None => {},
    }
}

/// `l1` is the lines `l0` after `</p>` in the state `s0`: the line's
/// tracks get the head's line translations for its key (see
/// `head_translation_step`), then the line is finished (see
/// `line_closed`); without an open line nothing is added.
pub open spec fn p_closed(s0: TtmlParserState, l0: Seq<LyricLine>, l1: Seq<LyricLine>) -> bool {
    match s0.body_state.current_p_element_data {
        Some(d0) => exists|t: Seq<AnnotatedTrack>|
            #[trigger] head_translation_step(
                d0.tracks_accumulator@,
                t,
                d0.itunes_key,
                s0.metadata_state.line_translation_map@,
            ) && line_closed(t, d0, s0.metadata_state.timed_track_map@, l0, l1),
        None => l1 == l0,
    }
}

/// Handles `</p>`: the line translations of the line's key are added (each
/// only once), then the line is finished (see `finalize_p_element`), and
/// the parser leaves the `<p>`.
pub fn handle_p_end(state: &mut TtmlParserState, lines: &mut Vec<LyricLine>, warnings: &mut Vec<String>)
    requires
        old(state).wf(),
    ensures
        final(state).is_line_timing_mode == old(state).is_line_timing_mode,
        final(state).wf(),
        !final(state).body_state.in_p,
        final(state).body_state.current_p_element_data is None,
        lines_have_data(old(lines)@) ==> lines_have_data(final(lines)@),
        final(lines)@.len() <= old(lines)@.len() + 1,
        final(state).agent_store == old(state).agent_store,
        final(state).in_metadata == old(state).in_metadata,
        final(state).metadata_state == old(state).metadata_state,
        final(state).body_state.span_stack@.len() == 0,
        final(state).body_state.last_syllable_info == LastSyllableInfo::Nothing,
        final(state).body_state.in_body == old(state).body_state.in_body,
        final(state).body_state.in_div == old(state).body_state.in_div,
        final(state).body_state.current_div_song_part == old(state).body_state.current_div_song_part,
        p_closed(*old(state), old(lines)@, final(lines)@),
{
    let p_opt = state.body_state.current_p_element_data.take();
    state.body_state.in_p = false;
    match p_opt {
        Some(mut p_data) => {
            let ghost d0 = p_data;
            add_head_translations(&mut p_data, &state.metadata_state.line_translation_map);
            let ghost t = p_data.tracks_accumulator@;
            finalize_p_element(p_data, lines, state, warnings);
            assert(head_translation_step(
                d0.tracks_accumulator@,
                t,
                d0.itunes_key,
                state.metadata_state.line_translation_map@,
            ));
            assert(line_closed(t, d0, state.metadata_state.timed_track_map@, old(lines)@, lines@));
            assert(p_closed(*old(state), old(lines)@, lines@));
        },
        None => {},
    }
    state.body_state.in_p = false;
    state.body_state.span_stack = Vec::new();
    state.body_state.last_syllable_info = LastSyllableInfo::Nothing;
}

/// `l1` is the lines `l0` after the line of `p`, its tracks `t` once the
/// head's line translations are added, is finished: its line text is placed
/// (see `line_text_placed`), then see `line_finished`.
pub open spec fn line_closed(
    t: Seq<AnnotatedTrack>,
    p: CurrentPElementData,
    map: Seq<(String, DetailedAuxiliaryTracks)>,
    l0: Seq<LyricLine>,
    l1: Seq<LyricLine>,
) -> bool {
    exists|t1: Seq<AnnotatedTrack>|
        #[trigger] line_text_placed(t, t1, p.line_text_accumulator@, p.start_ms, p.end_ms) && line_finished(
            t1,
            p,
            map,
            l0,
            l1,
        )
}


// ---------------------------------------------------------------------------
// Events inside a line
// ---------------------------------------------------------------------------

/// `t1` is the track `t0` with its last syllable (of its last word)
/// marked as followed by a space, when it has one.
pub open spec fn last_syllable_spaced(t0: AnnotatedTrack, t1: AnnotatedTrack) -> bool {
    let w0 = t0.content.words@;
    let w1 = t1.content.words@;
    if w0.len() > 0 && w0.last().syllables@.len() > 0 {
        let s0 = w0.last().syllables@;
        let s1 = w1.last().syllables@;
        &&& t1.content_type == t0.content_type
        &&& t1.translations == t0.translations
        &&& t1.romanizations == t0.romanizations
        &&& t1.content.metadata == t0.content.metadata
        &&& w1.len() == w0.len()
        &&& forall|k: int| 0 <= k < w0.len() - 1 ==> #[trigger] w1[k] == w0[k]
        &&& w1.last().furigana == w0.last().furigana
        &&& s1.len() == s0.len()
        &&& forall|k: int| 0 <= k < s0.len() - 1 ==> #[trigger] s1[k] == s0[k]
        &&& with_space(s0.last(), s1.last())
    } else {
        t1 == t0
    }
}

/// `d1` is the line data `d0` after whitespace right after a syllable of
/// the kind `ct`: when `mark`, the last syllable of the first track of that
/// kind is marked as followed by a space (see `last_syllable_spaced`).
pub open spec fn space_marked(d0: CurrentPElementData, d1: CurrentPElementData, ct: ContentType, mark: bool) -> bool {
    &&& same_line_head(d0, d1)
    &&& d1.line_text_accumulator == d0.line_text_accumulator
    &&& match crate::types::first_index_of_type(d0.tracks_accumulator@, ct) {
        Some(i) => if mark {
            &&& d1.tracks_accumulator@.len() == d0.tracks_accumulator@.len()
            &&& forall|j: int|
                0 <= j < d0.tracks_accumulator@.len() && j != i ==> #[trigger] d1.tracks_accumulator@[j]
                    == d0.tracks_accumulator@[j]
            &&& last_syllable_spaced(d0.tracks_accumulator@[i], d1.tracks_accumulator@[i])
        } else {
            d1.tracks_accumulator == d0.tracks_accumulator
        },
        None => d1.tracks_accumulator == d0.tracks_accumulator,
    }
}

/// `s1` is the state `s0`, inside a `<p>`, after the text `t`: whitespace
/// right after a syllable marks it as followed by a space when the document
/// is compact or the whitespace has no line break (see `space_marked`);
/// other text that is not blank goes to the open span's text, or to the
/// line's text when no span is open.
pub open spec fn text_taken(s0: TtmlParserState, s1: TtmlParserState, t: Seq<char>) -> bool {
    let d0 = s0.body_state.current_p_element_data->Some_0;
    let d1 = s1.body_state.current_p_element_data->Some_0;
    match s0.body_state.last_syllable_info {
        LastSyllableInfo::EndedSyllable { was_background } => if t.len() > 0 && all_ws(t) {
            &&& s1.body_state.last_syllable_info == LastSyllableInfo::Nothing
            &&& s1.text_buffer == s0.text_buffer
            &&& space_marked(
                d0,
                d1,
                if was_background {
                    ContentType::Background
                } else {
                    ContentType::Main
                },
                s0.format_detection == FormatDetection::NotFormatted || (!t.contains('\n') && !t.contains('\r')),
            )
        } else {
            text_added(s0, s1, t)
        },
        LastSyllableInfo::Nothing => text_added(s0, s1, t),
    }
}

/// `s1` is the state `s0` after the text `t` that does not follow a
/// syllable: blank text changes nothing; other text goes to the open span's
/// text, or to the line's text.
pub open spec fn text_added(s0: TtmlParserState, s1: TtmlParserState, t: Seq<char>) -> bool {
    let d0 = s0.body_state.current_p_element_data->Some_0;
    let d1 = s1.body_state.current_p_element_data->Some_0;
    if all_ws(t) {
        s1 == s0
    } else {
        &&& s1.body_state.last_syllable_info == LastSyllableInfo::Nothing
        &&& same_line_head(d0, d1)
        &&& d1.tracks_accumulator == d0.tracks_accumulator
        &&& if s0.body_state.span_stack@.len() > 0 {
            s1.text_buffer@ == s0.text_buffer@ + t && d1.line_text_accumulator == d0.line_text_accumulator
        } else {
            d1.line_text_accumulator@ == d0.line_text_accumulator@ + t && s1.text_buffer == s0.text_buffer
        }
    }
}

/// Handles text inside a `<p>`: whitespace right after a syllable marks it
/// as followed by a space (in compact documents, or when the whitespace has
/// no line break); other text that is not blank goes to the open span, or
/// to the line itself.
pub fn process_text_event(text_slice: &str, state: &mut TtmlParserState)
    requires
        old(state).wf(),
    ensures
        final(state).is_line_timing_mode == old(state).is_line_timing_mode,
        final(state).wf(),
        final(state).body_state.in_p == old(state).body_state.in_p,
        final(state).agent_store == old(state).agent_store,
        final(state).in_metadata == old(state).in_metadata,
        final(state).metadata_state == old(state).metadata_state,
        final(state).body_state.span_stack == old(state).body_state.span_stack,
        !old(state).body_state.in_p || all_ws(text_slice@) && !(old(
            state,
        ).body_state.last_syllable_info is EndedSyllable && text_slice@.len() > 0) ==> *final(state) == *old(
            state,
        ),
        old(state).body_state.in_p ==> text_taken(*old(state), *final(state), text_slice@),
{
    if !state.body_state.in_p {
        return;
    }
    match state.body_state.last_syllable_info {
        LastSyllableInfo::EndedSyllable { was_background } => {
            if !text_is_empty(text_slice) && is_blank(text_slice) {
                let has_space = state.format_detection == FormatDetection::NotFormatted || (!contains_char(
                    text_slice,
                    '\n',
                ) && !contains_char(text_slice, '\r'));
                if has_space {
                    let target = if was_background { ContentType::Background } else { ContentType::Main };
                    let mut p_opt = state.body_state.current_p_element_data.take();
                    match p_opt {
                        Some(mut p_data) => {
                            proof {
                                crate::types::lemma_first_index_of_type(p_data.tracks_accumulator@, target);
                            }
                            match crate::types::first_of_type(&p_data.tracks_accumulator, target) {
                                Some(ti) => {
                                    let nw = p_data.tracks_accumulator[ti].content.words.len();
                                    if nw > 0 {
                                        let ns = p_data.tracks_accumulator[ti].content.words[nw - 1].syllables.len();
                                        if ns > 0 {
                                            p_data.tracks_accumulator[ti].content.words[nw - 1].syllables[ns - 1].ends_with_space = true;
                                        }
                                    }
                                },
                                None => {},
                            }
                            state.body_state.current_p_element_data = Some(p_data);
                        },
                        None => {},
                    }
                }
                state.body_state.last_syllable_info = LastSyllableInfo::Nothing;
                return;
            }
        },
        LastSyllableInfo::Nothing => {},
    }
    if is_blank(text_slice) {
        return;
    }
    state.body_state.last_syllable_info = LastSyllableInfo::Nothing;
    if state.body_state.span_stack.len() > 0 {
        push_str(&mut state.text_buffer, text_slice);
    } else {
        let mut p_opt = state.body_state.current_p_element_data.take();
        match p_opt {
            Some(mut p_data) => {
                push_str(&mut p_data.line_text_accumulator, text_slice);
                state.body_state.current_p_element_data = Some(p_data);
            },
            None => {},
        }
    }
}

/// The role that a `ttm:role` value gives a span.
pub open spec fn role_of(value: Option<Seq<char>>) -> SpanRole {
    match value {
        Some(v) => if v == "x-translation"@ {
            SpanRole::Translation
        } else if v == "x-roman"@ {
            SpanRole::Romanization
        } else if v == "x-bg"@ {
            SpanRole::Background
        } else {
            SpanRole::Generic
        },
        None => SpanRole::Generic,
    }
}

/// `st1` is the span stack `st0` with the span of a `<span>` with
/// attributes `a` pushed: its role (by `ttm:role`, else `role`), language,
/// scheme and times.
pub open spec fn span_pushed(st0: Seq<SpanContext>, st1: Seq<SpanContext>, a: Seq<(String, String)>) -> bool {
    let sp = st1.last();
    &&& st1.len() == st0.len() + 1
    &&& st1.drop_last() =~= st0
    &&& sp.role == role_of(
        if attr_value(a, "ttm:role"@) is Some {
            attr_value(a, "ttm:role"@)
        } else {
            attr_value(a, "role"@)
        },
    )
    &&& opt_text(sp.lang) == attr_value(a, "xml:lang"@)
    &&& opt_text(sp.scheme) == attr_value(a, "xml:scheme"@)
    &&& sp.start_ms == time_attr_value(a, "begin"@)
    &&& sp.end_ms == time_attr_value(a, "end"@)
}

/// Handles `<span>` inside a `<p>`: the span's role, language, scheme and
/// times are pushed on the span stack; a background container gives the
/// line a background track if it has none.
pub fn process_span_start(
    attrs: &Result<Vec<(String, String)>, String>,
    state: &mut TtmlParserState,
    warnings: &mut Vec<String>,
) -> (r: Result<(), ConvertError>)
    requires
        old(state).wf(),
    ensures
        final(state).is_line_timing_mode == old(state).is_line_timing_mode,
        r matches Err(e) ==> is_parse_error(e),
        final(state).wf(),
        final(state).body_state.in_p == old(state).body_state.in_p,
        final(state).agent_store == old(state).agent_store,
        final(state).in_metadata == old(state).in_metadata,
        final(state).metadata_state == old(state).metadata_state,
        attrs is Ok <==> r is Ok,
        r is Ok ==> final(state).body_state.span_stack@.len() == old(state).body_state.span_stack@.len() + 1,
        r is Ok ==> (attrs matches Ok(a) && span_pushed(
            old(state).body_state.span_stack@,
            final(state).body_state.span_stack@,
            a@,
        )),
        r is Ok ==> final(state).text_buffer@.len() == 0,
        r is Ok ==> if final(state).body_state.span_stack@.last().role == SpanRole::Background && old(
            state,
        ).body_state.current_p_element_data is Some && crate::types::first_index_of_type(
            old(state).body_state.current_p_element_data->Some_0.tracks_accumulator@,
            ContentType::Background,
        ) is None {
            let d0 = old(state).body_state.current_p_element_data->Some_0;
            let d1 = final(state).body_state.current_p_element_data->Some_0;
            &&& same_line_head(d0, d1)
            &&& d1.line_text_accumulator == d0.line_text_accumulator
            &&& d1.tracks_accumulator@.len() == d0.tracks_accumulator@.len() + 1
            &&& d1.tracks_accumulator@.drop_last() =~= d0.tracks_accumulator@
            &&& d1.tracks_accumulator@.last().content_type == ContentType::Background
            &&& d1.tracks_accumulator@.last().content.words@.len() == 0
            &&& track_is_empty(d1.tracks_accumulator@.last())
        } else {
            final(state).body_state.current_p_element_data == old(state).body_state.current_p_element_data
        },
{
    state.text_buffer = String::new();
    let role_value = string_attribute_or(attrs, "ttm:role", "role")?;
    let role = match &role_value {
        Some(v) => if str_eq(v.as_str(), "x-translation") {
            SpanRole::Translation
        } else if str_eq(v.as_str(), "x-roman") {
            SpanRole::Romanization
        } else if str_eq(v.as_str(), "x-bg") {
            SpanRole::Background
        } else {
            SpanRole::Generic
        },
        None => SpanRole::Generic,
    };
    let lang = string_attribute(attrs, "xml:lang")?;
    let scheme = string_attribute(attrs, "xml:scheme")?;
    let start_ms = time_attribute(attrs, "begin", warnings)?;
    let end_ms = time_attribute(attrs, "end", warnings)?;
    state.body_state.span_stack.push(SpanContext { role, lang, scheme, start_ms, end_ms });
    if role == SpanRole::Background {
        let mut p_opt = state.body_state.current_p_element_data.take();
        match p_opt {
            Some(mut p_data) => {
                proof {
                    crate::types::lemma_first_index_of_type(p_data.tracks_accumulator@, ContentType::Background);
                }
                if crate::types::first_of_type(&p_data.tracks_accumulator, ContentType::Background).is_none() {
                    p_data.tracks_accumulator.push(AnnotatedTrack::empty(ContentType::Background));
                }
                state.body_state.current_p_element_data = Some(p_data);
            },
            None => {},
        }
    }
    Ok(())
}

/// `char::from_u32`: the character with the given code point, if it is one.
#[verifier::external_body]
fn char_from_u32(x: u32) -> (r: Option<char>)
    ensures
        r is Some <==> (x <= 0xD7FF || (0xE000 <= x && x <= 0x10FFFF)),
        r matches Some(c) ==> c as u32 == x,
{
    char::from_u32(x)
}

/// The value of a digit in the given radix (10 or 16).
pub open spec fn radix_digit(c: char, radix: nat) -> Option<nat> {
    if '0' <= c && c <= '9' {
        if (c as nat) - ('0' as nat) < radix {
            Some(((c as nat) - ('0' as nat)) as nat)
        } else {
            None
        }
    } else if radix == 16 && 'a' <= c && c <= 'f' {
        Some(((c as nat) - ('a' as nat) + 10) as nat)
    } else if radix == 16 && 'A' <= c && c <= 'F' {
        Some(((c as nat) - ('A' as nat) + 10) as nat)
    } else {
        None
    }
}

/// Every character of `s` is a digit in the radix.
pub open spec fn radix_digits(s: Seq<char>, radix: nat) -> bool {
    forall|i: int| 0 <= i < s.len() ==> #[trigger] radix_digit(s[i], radix) is Some
}

/// The number the digits `s` write in the radix.
pub open spec fn radix_number(s: Seq<char>, radix: nat) -> nat
    decreases s.len(),
{
    if s.len() == 0 {
        0
    } else {
        radix_number(s.drop_last(), radix) * radix + radix_digit(s.last(), radix).unwrap()
    }
}

/// What `u32::from_str_radix` accepts: an optional `+`, then at least one
/// digit of the radix, with a value that fits in 32 bits.
pub open spec fn parse_radix_spec(s: Seq<char>, radix: nat) -> Option<nat> {
    let body = if s.len() > 0 && s[0] == '+' {
        s.drop_first()
    } else {
        s
    };
    if body.len() > 0 && radix_digits(body, radix) && radix_number(body, radix) <= u32::MAX {
        Some(radix_number(body, radix))
    } else {
        None
    }
}

/// A longer run of digits never has a smaller value.
proof fn lemma_radix_prefix(s: Seq<char>, radix: nat, k: int)
    requires
        0 <= k <= s.len(),
        radix_digits(s, radix),
    ensures
        radix_number(s.take(k), radix) <= radix_number(s, radix),
    decreases s.len() - k,
{
    if k < s.len() {
        lemma_radix_prefix(s, radix, k + 1);
        assert(s.take(k + 1).drop_last() =~= s.take(k));
        let t = s.take(k + 1);
        assert(radix_digit(t.last(), radix) is Some) by {
            assert(t.last() == s[k]);
        }
        assert(radix_number(t, radix) == radix_number(s.take(k), radix) * radix + radix_digit(t.last(), radix).unwrap());
        assert(radix >= 1 ==> radix_number(s.take(k), radix) * radix >= radix_number(s.take(k), radix)) by (nonlinear_arith);
        if radix == 0 {
            assert(radix_digit(t.last(), radix) is None);
        }
    } else {
        assert(s.take(k) =~= s);
    }
}

/// The value of a digit in the given radix (see `radix_digit`).
fn digit_value_in(c: char, radix: u32) -> (r: Option<u32>)
    requires
        radix == 10 || radix == 16,
    ensures
        match radix_digit(c, radix as nat) {
            Some(d) => r matches Some(x) && x == d,
            None => r is None,
        },
{
    if '0' <= c && c <= '9' {
        let d: u32 = (c as u32) - ('0' as u32);
        if d < radix { Some(d) } else { None }
    } else if radix == 16 && 'a' <= c && c <= 'f' {
        Some((c as u32) - ('a' as u32) + 10)
    } else if radix == 16 && 'A' <= c && c <= 'F' {
        Some((c as u32) - ('A' as u32) + 10)
    } else {
        None
    }
}

/// `u32::from_str_radix` on `v[lo..]` (see `parse_radix_spec`).
fn parse_radix(v: &Vec<char>, lo: usize, radix: u32) -> (r: Option<u32>)
    requires
        lo <= v@.len(),
        radix == 10 || radix == 16,
    ensures
        match parse_radix_spec(v@.skip(lo as int), radix as nat) {
            Some(n) => r matches Some(x) && x == n,
            None => r is None,
        },
{
    let ghost s = v@.skip(lo as int);
    let mut i = lo;
    if i < v.len() && v[i] == '+' {
        i = i + 1;
    }
    let ghost body = v@.skip(i as int);
    assert(body =~= if s.len() > 0 && s[0] == '+' { s.drop_first() } else { s });
    if i >= v.len() {
        assert(body.len() == 0);
        return None;
    }
    let start = i;
    let mut acc: u32 = 0;
    assert(body.take(0) =~= Seq::<char>::empty());
    while i < v.len()
        invariant
            start <= i <= v@.len(),
            body == v@.skip(start as int),
            s == v@.skip(lo as int),
            body == (if s.len() > 0 && s[0] == '+' { s.drop_first() } else { s }),
            body.len() > 0,
            radix == 10 || radix == 16,
            radix_digits(body.take(i - start), radix as nat),
            acc == radix_number(body.take(i - start), radix as nat),
        decreases v@.len() - i,
    {
        let ghost k: int = i - start;
        assert(body.take(k + 1).drop_last() =~= body.take(k));
        assert(body.take(k + 1).last() == v@[i as int]);
        assert(body[k] == v@[i as int]);
        match digit_value_in(v[i], radix) {
            Some(d) => {
                match acc.checked_mul(radix) {
                    Some(m) => match m.checked_add(d) {
                        Some(n) => {
                            acc = n;
                            assert forall|j: int| 0 <= j < k + 1 implies #[trigger] radix_digit(body.take(k + 1)[j], radix as nat) is Some by {
                                if j < k {
                                    assert(body.take(k + 1)[j] == body.take(k)[j]);
                                }
                            }
                        },
                        None => {
                            proof {
                                lemma_too_large(body, radix as nat, k);
                            }
                            return None;
                        },
                    },
                    None => {
                        proof {
                            lemma_too_large(body, radix as nat, k);
                        }
                        return None;
                    },
                }
            },
            None => {
                assert(!radix_digits(body, radix as nat));
                return None;
            },
        }
        i = i + 1;
    }
    assert(body.take(body.len() as int) =~= body);
    Some(acc)
}

/// A prefix past the 32-bit range makes the whole too large or not digits.
proof fn lemma_too_large(body: Seq<char>, radix: nat, k: int)
    requires
        0 <= k < body.len(),
        radix_digits(body.take(k), radix),
        radix_digit(body[k], radix) is Some,
        radix_number(body.take(k), radix) * radix + radix_digit(body[k], radix).unwrap() > u32::MAX,
    ensures
        !(radix_digits(body, radix) && radix_number(body, radix) <= u32::MAX),
{
    assert(body.take(k + 1).drop_last() =~= body.take(k));
    assert(body.take(k + 1).last() == body[k]);
    if radix_digits(body, radix) {
        lemma_radix_prefix(body, radix, k + 1);
    }
}

/// The character an entity reference `&name;` stands for: a numeric one
/// (`#` and decimal digits, or `#x` and hexadecimal digits) its code point
/// when that is a character, the five predefined ones theirs, anything else
/// `'\0'`.
pub open spec fn entity_char(name: Seq<char>) -> char {
    if name.len() > 0 && name[0] == '#' {
        let (radix, start) = if name.len() > 1 && name[1] == 'x' {
            (16nat, 2int)
        } else {
            (10nat, 1int)
        };
        match parse_radix_spec(name.skip(start), radix) {
            Some(cp) => if cp <= 0xD7FF || (0xE000 <= cp && cp <= 0x10FFFF) {
                (cp as u32) as char
            } else {
                '\0'
            },
            None => '\0',
        }
    } else if name == "amp"@ {
        '&'
    } else if name == "lt"@ {
        '<'
    } else if name == "gt"@ {
        '>'
    } else if name == "quot"@ {
        '"'
    } else if name == "apos"@ {
        '\''
    } else {
        '\0'
    }
}

/// The warning decoding an entity reference gives: for a numeric one whose
/// number cannot be read, and for an unknown name.
pub open spec fn entity_warnings(name: Seq<char>) -> Seq<Seq<char>> {
    if name.len() > 0 && name[0] == '#' {
        let (radix, start) = if name.len() > 1 && name[1] == 'x' {
            (16nat, 2int)
        } else {
            (10nat, 1int)
        };
        if parse_radix_spec(name.skip(start), radix) is None {
            seq!["无法解析无效的XML数字实体 '&"@ + name + ";'"@]
        } else {
            Seq::empty()
        }
    } else if name == "amp"@ || name == "lt"@ || name == "gt"@ || name == "quot"@ || name == "apos"@ {
        Seq::empty()
    } else {
        seq!["忽略了未知的XML实体 '&"@ + name + ";'"@]
    }
}

/// The character an entity reference `&name;` stands for (see
/// `entity_char`), with a warning for one that cannot be read (see
/// `entity_warnings`).
pub fn decode_entity(entity_name: &str, warnings: &mut Vec<String>) -> (r: char)
    ensures
        r == entity_char(entity_name@),
        texts(final(warnings)@) == texts(old(warnings)@) + entity_warnings(entity_name@),
{
    let ghost before = texts(warnings@);
    let v = chars_of(entity_name);
    if v.len() > 0 && v[0] == '#' {
        let (radix, start): (u32, usize) = if v.len() > 1 && v[1] == 'x' { (16, 2) } else { (10, 1) };
        match parse_radix(&v, start, radix) {
            Some(code_point) => {
                assert(texts(warnings@) =~= before + entity_warnings(entity_name@));
                match char_from_u32(code_point) {
                    Some(c) => {
                        proof {
                            vstd::utf8::char_u32_cast(c, code_point);
                        }
                        c
                    },
                    None => '\0',
                }
            },
            None => {
                let mut w = to_owned_string("无法解析无效的XML数字实体 '&");
                push_str(&mut w, entity_name);
                push_str(&mut w, ";'");
                warnings.push(w);
                assert(texts(warnings@) =~= before + entity_warnings(entity_name@));
                '\0'
            },
        }
    } else {
        assert(texts(warnings@) =~= before);
        if str_eq(entity_name, "amp") {
            '&'
        } else if str_eq(entity_name, "lt") {
            '<'
        } else if str_eq(entity_name, "gt") {
            '>'
        } else if str_eq(entity_name, "quot") {
            '"'
        } else if str_eq(entity_name, "apos") {
            '\''
        } else {
            let mut w = to_owned_string("忽略了未知的XML实体 '&");
            push_str(&mut w, entity_name);
            push_str(&mut w, ";'");
            warnings.push(w);
            assert(texts(warnings@) =~= before + entity_warnings(entity_name@));
            '\0'
        }
    }
}

/// Handles an event inside a `<p>`: spans, text, entity references, line
/// breaks (dropped with a warning) and the end of the `<p>`.
pub fn handle_p_event(
    event: &XmlEvent,
    state: &mut TtmlParserState,
    lines: &mut Vec<LyricLine>,
    warnings: &mut Vec<String>,
) -> (r: Result<(), ConvertError>)
    requires
        old(state).wf(),
        old(state).body_state.in_p,
    ensures
        p_event_done(*event, *old(state), *final(state), old(lines)@, final(lines)@, r),
{
    proof {
        reveal_strlit("span");
        reveal_strlit("p");
        reveal_strlit("br");
        assert("span"@.len() == 4 && "p"@.len() == 1 && "br"@.len() == 2);
    }
    match event {
        XmlEvent::Start { local_name, attributes, .. } => {
            if str_eq(local_name.as_str(), "span") {
                process_span_start(attributes, state, warnings)?;
            }
        },
        XmlEvent::Text { content, .. } => process_text_event(content.as_str(), state),
        XmlEvent::GeneralRef(entity_name) => {
            let decoded_char = decode_entity(entity_name.as_str(), warnings);
            if decoded_char != '\0' {
                if state.body_state.span_stack.len() == 0 {
                    let mut p_opt = state.body_state.current_p_element_data.take();
                    match p_opt {
                        Some(mut p_data) => {
                            push_char(&mut p_data.line_text_accumulator, decoded_char);
                            state.body_state.current_p_element_data = Some(p_data);
                        },
                        None => {},
                    }
                } else {
                    push_char(&mut state.text_buffer, decoded_char);
                }
            }
        },
        XmlEvent::End { local_name, .. } => {
            if str_eq(local_name.as_str(), "br") {
                let (s, e) = match &state.body_state.current_p_element_data {
                    Some(d) => (d.start_ms, d.end_ms),
                    None => (0, 0),
                };
                let mut w = to_owned_string("在 <p> (");
                push_decimal(&mut w, s);
                push_str(&mut w, "ms-");
                push_decimal(&mut w, e);
                push_str(&mut w, "ms) 中发现并忽略了一个 <br/> 标签。");
                warnings.push(w);
            } else if str_eq(local_name.as_str(), "p") {
                handle_p_end(state, lines, warnings);
            } else if str_eq(local_name.as_str(), "span") {
                process_span_end(state, warnings)?;
            }
        },
        _ => {},
    }
    Ok(())
}

// ---------------------------------------------------------------------------
// Events outside lines
// ---------------------------------------------------------------------------

/// Whether an event is the start tag `<tt>`.
pub open spec fn is_tt_start(e: XmlEvent) -> bool {
    e matches XmlEvent::Start { local_name, .. } && local_name@ == "tt"@
}

/// The warning of a document read line by line for want of timed spans.
pub open spec fn line_mode_warning() -> Seq<char> {
    "未找到带时间戳的 <span> 标签且未指定 itunes:timing 模式，切换到逐行歌词模式。"@
}

/// The state after `<tt>` with the readable attributes `a`: the timing
/// mode (forced by the options, else the `itunes:timing` attribute, else
/// line timing, with a warning, when the document has no timed span) and
/// the document's language.
pub open spec fn tt_started(
    os: TtmlParserState,
    fs: TtmlParserState,
    oraw: Seq<(String, Vec<String>)>,
    fraw: Seq<(String, Vec<String>)>,
    ow: Seq<String>,
    fw: Seq<String>,
    a: Seq<(String, String)>,
    has_timed_span_tags: bool,
    options: TtmlParsingOptions,
) -> bool {
    let detected = options.force_timing_mode is None && attr_value(a, "itunes:timing"@) is None && !has_timed_span_tags;
    &&& fs.is_line_timing_mode == match options.force_timing_mode {
        Some(m) => m == TtmlTimingMode::Line,
        None => match attr_value(a, "itunes:timing"@) {
            Some(v) => os.is_line_timing_mode || v == "line"@,
            None => os.is_line_timing_mode || !has_timed_span_tags,
        },
    }
    &&& fs.detected_line_mode == (os.detected_line_mode || detected)
    &&& match attr_value(a, "xml:lang"@) {
        Some(l) => if l.len() > 0 {
            &&& raw_pushed(raw_view(oraw), raw_view(fraw), "xml:lang_root"@, l)
            &&& opt_text(fs.default_main_lang) == if os.default_main_lang is None {
                Some(l)
            } else {
                opt_text(os.default_main_lang)
            }
        } else {
            fraw == oraw && fs.default_main_lang == os.default_main_lang
        },
        None => fraw == oraw && fs.default_main_lang == os.default_main_lang,
    }
    &&& texts(fw) == texts(ow) + if detected {
        seq![line_mode_warning()]
    } else {
        Seq::<Seq<char>>::empty()
    }
}

/// Handles `<tt>`: the timing mode (forced by the options, else the
/// `itunes:timing` attribute, else line timing when the document has no
/// timed span) and the document's language.
pub fn process_tt_start(
    attrs: &Result<Vec<(String, String)>, String>,
    state: &mut TtmlParserState,
    raw_metadata: &mut Vec<(String, Vec<String>)>,
    has_timed_span_tags: bool,
    warnings: &mut Vec<String>,
    options: &TtmlParsingOptions,
) -> (r: Result<(), ConvertError>)
    requires
        old(state).wf(),
    ensures
        options.force_timing_mode matches Some(m) ==> final(state).is_line_timing_mode == (m == TtmlTimingMode::Line),
        r matches Err(e) ==> is_parse_error(e),
        final(state).wf(),
        final(state).body_state == old(state).body_state,
        final(state).agent_store == old(state).agent_store,
        final(state).in_metadata == old(state).in_metadata,
        final(state).metadata_state == old(state).metadata_state,
        attrs is Err <==> r is Err,
        attrs is Err ==> final(warnings)@ == old(warnings)@,
        attrs matches Ok(a) ==> tt_started(
            *old(state),
            *final(state),
            old(raw_metadata)@,
            final(raw_metadata)@,
            old(warnings)@,
            final(warnings)@,
            a@,
            has_timed_span_tags,
            *options,
        ),
{
    let ghost ow = warnings@;
    match options.force_timing_mode {
        Some(forced_mode) => {
            state.is_line_timing_mode = forced_mode == TtmlTimingMode::Line;
        },
        None => {
            match string_attribute(attrs, "itunes:timing")? {
                Some(v) => {
                    if str_eq(v.as_str(), "line") {
                        state.is_line_timing_mode = true;
                    }
                },
                None => {
                    if !has_timed_span_tags {
                        state.is_line_timing_mode = true;
                        state.detected_line_mode = true;
                        warnings.push(
                            to_owned_string(
                                "未找到带时间戳的 <span> 标签且未指定 itunes:timing 模式，切换到逐行歌词模式。",
                            ),
                        );
                        assert(texts(warnings@) =~= texts(ow) + seq![line_mode_warning()]);
                    }
                },
            }
        },
    }
    match string_attribute(attrs, "xml:lang")? {
        Some(lang_val) => {
            if !text_is_empty(lang_val.as_str()) {
                push_raw_metadata(raw_metadata, "xml:lang_root", to_owned_string(lang_val.as_str()));
                if state.default_main_lang.is_none() {
                    state.default_main_lang = Some(lang_val);
                }
            }
        },
        None => {},
    }
    assert(texts(ow) + Seq::<Seq<char>>::empty() =~= texts(ow));
    Ok(())
}

/// Entry `i` of the singers named in lines is the first for `name`.
pub open spec fn name_at(map: Seq<(String, String)>, name: Seq<char>, i: int) -> bool {
    0 <= i < map.len() && map[i].0@ == name && forall|j: int| 0 <= j < i ==> (#[trigger] map[j]).0@ != name
}

/// `s1` is `s0` after the singer value `val` of a `<p>` is resolved to the
/// id `r`: a declared id stays; a name seen before gets the id it was given;
/// a new name gets the id `v{n}` (the counter raised by one, unless at its
/// limit), recorded with the name and as a person.
pub open spec fn agent_resolved(s0: TtmlParserState, s1: TtmlParserState, val: Seq<char>, r: Seq<char>) -> bool {
    let map = s0.agent_name_to_id_map@;
    if s0.agent_store@.contains_key(val) {
        r == val && s1 == s0
    } else if exists|i: int| 0 <= i < map.len() && (#[trigger] map[i]).0@ == val {
        s1 == s0 && exists|i: int| #[trigger] name_at(map, val, i) && r == map[i].1@
    } else {
        let c = if s0.agent_counter < u32::MAX {
            s0.agent_counter + 1
        } else {
            s0.agent_counter as int
        };
        &&& s1.agent_counter == c
        &&& r == "v"@ + crate::text::decimal(c as nat)
        &&& s1.agent_name_to_id_map@.len() == map.len() + 1
        &&& s1.agent_name_to_id_map@.drop_last() =~= map
        &&& s1.agent_name_to_id_map@.last().0@ == val
        &&& s1.agent_name_to_id_map@.last().1@ == r
        &&& s1.agent_store@ == s0.agent_store@.insert(r, AgentView { id: r, name: Some(val), agent_type: AgentType::Person })
    }
}

/// The id of the singer named by a `<p>`'s agent attribute: an id declared
/// in the head stays; any other value is a singer's name, given the id
/// `v{n}` the first time it is seen (and recorded as a person).
fn agent_for_p(state: &mut TtmlParserState, val: String) -> (r: String)
    requires
        old(state).wf(),
    ensures
        final(state).is_line_timing_mode == old(state).is_line_timing_mode,
        final(state).wf(),
        final(state).body_state == old(state).body_state,
        final(state).in_metadata == old(state).in_metadata,
        final(state).metadata_state == old(state).metadata_state,
        agent_resolved(*old(state), *final(state), val@, r@),
        old(state).agent_store@.dom().subset_of(final(state).agent_store@.dom()),
{
    if state.agent_store.contains_id(val.as_str()) {
        return val;
    }
    match find_agent_name(&state.agent_name_to_id_map, val.as_str()) {
        Some(i) => {
            let r = to_owned_string(state.agent_name_to_id_map[i].1.as_str());
            assert(name_at(state.agent_name_to_id_map@, val@, i as int));
            r
        },
        None => {
            proof {
                reveal_strlit("v");
            }
            if state.agent_counter < u32::MAX {
                state.agent_counter = state.agent_counter + 1;
            }
            let mut new_id = to_owned_string("v");
            push_decimal(&mut new_id, state.agent_counter as u64);
            state.agent_name_to_id_map.push((to_owned_string(val.as_str()), to_owned_string(new_id.as_str())));
            let ghost vv = val@;
            let new_agent = Agent { id: to_owned_string(new_id.as_str()), name: Some(val), agent_type: AgentType::Person };
            assert(new_agent@ == AgentView { id: new_id@, name: Some(vv), agent_type: AgentType::Person });
            state.agent_store.insert(new_agent);
            new_id
        },
    }
}

/// The value of a `<p>`'s singer attribute (`ttm:agent`, else `agent`).
pub open spec fn agent_attr(a: Seq<(String, String)>) -> Option<Seq<char>> {
    if attr_value(a, "ttm:agent"@) is Some {
        attr_value(a, "ttm:agent"@)
    } else {
        attr_value(a, "agent"@)
    }
}

/// `d` is the data of a `<p>` just opened with the attributes `a`, inside a
/// `<div>` of song part `div_part`, with the singers `agents` declared: its
/// times (0 when missing or unreadable), its singer (the id itself when
/// declared), its song part (its own, else the div's), its key, and nothing
/// gathered yet.
pub open spec fn p_opened(
    d: CurrentPElementData,
    a: Seq<(String, String)>,
    div_part: Option<String>,
    agents: Map<Seq<char>, AgentView>,
) -> bool {
    &&& d.start_ms == match time_attr_value(a, "begin"@) {
        Some(ms) => ms,
        None => 0,
    }
    &&& d.end_ms == match time_attr_value(a, "end"@) {
        Some(ms) => ms,
        None => 0,
    }
    &&& match agent_attr(a) {
        Some(v) => d.agent matches Some(id) && (agents.contains_key(v) ==> id@ == v),
        None => d.agent is None,
    }
    &&& opt_text(d.song_part) == if attr_value(a, "itunes:song-part"@) is Some {
        attr_value(a, "itunes:song-part"@)
    } else {
        opt_text(div_part)
    }
    &&& opt_text(d.itunes_key) == attr_value(a, "itunes:key"@)
    &&& d.line_text_accumulator@.len() == 0
    &&& d.tracks_accumulator@.len() == 0
}

/// Handles an event outside `<metadata>` and outside lines: the root,
/// `<metadata>`, `<body>`, `<div>` (with its song part) and the start of a
/// `<p>` (with its times, singer, song part and key).
pub fn handle_global_event(
    event: &XmlEvent,
    state: &mut TtmlParserState,
    raw_metadata: &mut Vec<(String, Vec<String>)>,
    warnings: &mut Vec<String>,
    has_timed_span_tags: bool,
    options: &TtmlParsingOptions,
) -> (r: Result<(), ConvertError>)
    requires
        old(state).wf(),
    ensures
        global_event_done(*event, *old(state), *final(state), old(raw_metadata)@, final(raw_metadata)@, old(warnings)@, final(warnings)@, has_timed_span_tags, *options, r),
{
    proof {
        reveal_strlit("tt");
        reveal_strlit("metadata");
        reveal_strlit("body");
        reveal_strlit("div");
        reveal_strlit("p");
    }
    match event {
        XmlEvent::Start { local_name, attributes, .. } => {
            let name = local_name.as_str();
            if str_eq(name, "tt") {
                process_tt_start(attributes, state, raw_metadata, has_timed_span_tags, warnings, options)?;
            } else if str_eq(name, "metadata") {
                state.in_metadata = true;
            } else if str_eq(name, "body") {
                state.body_state.in_body = true;
            } else if str_eq(name, "div") && state.body_state.in_body {
                state.body_state.in_div = true;
                state.body_state.current_div_song_part = string_attribute(attributes, "itunes:song-part")?;
            } else if str_eq(name, "p") && state.body_state.in_body {
                let start_ms = match time_attribute(attributes, "begin", warnings)? {
                    Some(ms) => ms,
                    None => 0,
                };
                let end_ms = match time_attribute(attributes, "end", warnings)? {
                    Some(ms) => ms,
                    None => 0,
                };
                let agent = match string_attribute_or(attributes, "ttm:agent", "agent")? {
                    Some(val) => Some(agent_for_p(state, val)),
                    None => None,
                };
                let song_part = match string_attribute(attributes, "itunes:song-part")? {
                    Some(sp) => Some(sp),
                    None => copy_opt(&state.body_state.current_div_song_part),
                };
                let itunes_key = string_attribute(attributes, "itunes:key")?;
                state.body_state.in_p = true;
                state.body_state.current_p_element_data = Some(CurrentPElementData {
                    start_ms,
                    end_ms,
                    agent,
                    song_part,
                    itunes_key,
                    line_text_accumulator: String::new(),
                    tracks_accumulator: Vec::new(),
                });
                state.text_buffer = String::new();
                state.body_state.span_stack = Vec::new();
            }
        },
        XmlEvent::End { local_name, .. } => {
            if str_eq(local_name.as_str(), "div") && state.body_state.in_div {
                state.body_state.in_div = false;
                state.body_state.current_div_song_part = None;
            }
        },
        _ => {},
    }
    Ok(())
}

// ---------------------------------------------------------------------------
// Events inside <metadata>
// ---------------------------------------------------------------------------

/// Whether the metadata context is inside `<text>`.
fn in_aux_text(c: &MetadataContext) -> (r: bool)
    ensures
        r == (*c is InAuxiliaryText),
{
    match c {
        MetadataContext::InAuxiliaryText { .. } => true,
        _ => false,
    }
}

/// The attributes of a start tag, none when they could not be read.
pub open spec fn attrs_or_none(attrs: Result<Vec<(String, String)>, String>) -> Seq<(String, String)> {
    match attrs {
        Ok(a) => a@,
        Err(_) => Seq::empty(),
    }
}

/// Whether a tag declares a singer.
pub open spec fn is_agent_tag(n: Seq<char>) -> bool {
    n == "agent"@ || n == "ttm:agent"@
}

/// Whether a tag names a singer.
pub open spec fn is_name_tag(n: Seq<char>) -> bool {
    n == "name"@ || n == "ttm:name"@
}

/// Whether a tag is a metadata entry.
pub open spec fn is_meta_tag(n: Seq<char>) -> bool {
    n == "meta"@ || n == "amll:meta"@
}

/// The type of a singer by its `type` attribute.
pub open spec fn agent_type_of(t: Option<Seq<char>>) -> AgentType {
    match t {
        Some(v) => if v == "person"@ {
            AgentType::Person
        } else if v == "group"@ {
            AgentType::Group
        } else {
            AgentType::Other
        },
        None => AgentType::Other,
    }
}

/// The metadata context after the start tag `n` with attributes `a`.
pub open spec fn context_after_start(c: ContextView, n: Seq<char>, a: Seq<(String, String)>) -> ContextView {
    if is_agent_tag(n) {
        match attr_value(a, "xml:id"@) {
            Some(id) => ContextView::InAgent(Some(id)),
            None => c,
        }
    } else if is_name_tag(n) || is_meta_tag(n) {
        c
    } else if n == "iTunesMetadata"@ {
        ContextView::InITunesMetadata
    } else if n == "songwriter"@ {
        if c is InITunesMetadata {
            ContextView::InSongwriter
        } else {
            c
        }
    } else if n == "translations"@ {
        if c is InITunesMetadata {
            ContextView::InAuxiliaryContainer(AuxTrackType::Translation)
        } else {
            c
        }
    } else if n == "transliterations"@ {
        if c is InITunesMetadata {
            ContextView::InAuxiliaryContainer(AuxTrackType::Romanization)
        } else {
            c
        }
    } else if n == "translation"@ || n == "transliteration"@ {
        match c {
            ContextView::InAuxiliaryContainer(t) => ContextView::InAuxiliaryEntry(t, attr_value(a, "xml:lang"@)),
            _ => c,
        }
    } else if n == "text"@ {
        match c {
            ContextView::InAuxiliaryEntry(t, l) => ContextView::InAuxiliaryText(t, l, attr_value(a, "for"@)),
            _ => c,
        }
    } else {
        c
    }
}

/// The metadata context after the end tag `n`.
pub open spec fn context_after_end(c: ContextView, n: Seq<char>) -> ContextView {
    if n == "metadata"@ {
        c
    } else if n == "iTunesMetadata"@ {
        ContextView::Outside
    } else if n == "songwriter"@ {
        ContextView::InITunesMetadata
    } else if is_agent_tag(n) {
        ContextView::Outside
    } else if n == "translations"@ || n == "transliterations"@ {
        ContextView::InITunesMetadata
    } else if n == "translation"@ || n == "transliteration"@ {
        match c {
            ContextView::InAuxiliaryEntry(t, _) => ContextView::InAuxiliaryContainer(t),
            _ => c,
        }
    } else if n == "text"@ {
        match c {
            ContextView::InAuxiliaryText(t, l, _) => ContextView::InAuxiliaryEntry(t, l),
            _ => c,
        }
    } else {
        c
    }
}

/// The role of a `<span>` by its role attribute.
pub open spec fn role_of_value(v: Option<Seq<char>>) -> SpanRole {
    if v == Some("x-bg"@) {
        SpanRole::Background
    } else {
        SpanRole::Generic
    }
}

/// The tag names of the head, told apart by their lengths and first
/// letters.
proof fn lemma_tag_names()
    ensures
        "agent"@.len() == 5,
        "ttm:agent"@.len() == 9 && "ttm:agent"@[0] == 't',
        "name"@.len() == 4 && "name"@[0] == 'n',
        "ttm:name"@.len() == 8 && "ttm:name"@[0] == 't',
        "meta"@.len() == 4 && "meta"@[0] == 'm',
        "amll:meta"@.len() == 9 && "amll:meta"@[0] == 'a',
        "iTunesMetadata"@.len() == 14,
        "songwriter"@.len() == 10,
        "translations"@.len() == 12,
        "transliterations"@.len() == 16,
        "translation"@.len() == 11,
        "transliteration"@.len() == 15,
        "text"@.len() == 4 && "text"@[0] == 't',
        "span"@.len() == 4 && "span"@[0] == 's',
        "metadata"@.len() == 8 && "metadata"@[0] == 'm',
{
    reveal_strlit("agent");
    reveal_strlit("ttm:agent");
    reveal_strlit("name");
    reveal_strlit("ttm:name");
    reveal_strlit("meta");
    reveal_strlit("amll:meta");
    reveal_strlit("iTunesMetadata");
    reveal_strlit("songwriter");
    reveal_strlit("translations");
    reveal_strlit("transliterations");
    reveal_strlit("translation");
    reveal_strlit("transliteration");
    reveal_strlit("text");
    reveal_strlit("span");
    reveal_strlit("metadata");
}

/// `b` keeps the body state, the place in the document and the gathered
/// annotations of `a`.
pub open spec fn parts_kept(a: TtmlParserState, b: TtmlParserState) -> bool {
    &&& b.body_state == a.body_state
    &&& b.in_metadata == a.in_metadata
    &&& b.metadata_state.line_translation_map == a.metadata_state.line_translation_map
    &&& b.metadata_state.timed_track_map == a.metadata_state.timed_track_map
}

/// `<ttm:agent>`: a singer with an id is recorded (without a name yet, with
/// the type its `type` attribute gives) and becomes the context; one
/// without an id is ignored with a warning.
fn agent_start(attrs: &Result<Vec<(String, String)>, String>, state: &mut TtmlParserState, warnings: &mut Vec<String>) -> (r:
    Result<(), ConvertError>)
    requires
        old(state).wf(),
    ensures
        final(state).is_line_timing_mode == old(state).is_line_timing_mode,
        r matches Err(e) ==> is_parse_error(e),
        final(state).wf(),
        parts_kept(*old(state), *final(state)),
        attrs is Err <==> r is Err,
        r is Ok ==> final(state).metadata_state.context@ == context_after_start(
            old(state).metadata_state.context@,
            "agent"@,
            attrs_or_none(*attrs),
        ),
        r is Ok ==> final(state).agent_store@ == match attr_value(attrs_or_none(*attrs), "xml:id"@) {
            Some(id) => old(state).agent_store@.insert(
                id,
                AgentView { id, name: None, agent_type: agent_type_of(attr_value(attrs_or_none(*attrs), "type"@)) },
            ),
            None => old(state).agent_store@,
        },
{
    proof {
        reveal_strlit("agent");
        reveal_strlit("person");
        reveal_strlit("group");
    }
    match string_attribute(attrs, "xml:id")? {
        Some(id) => {
            let type_str = string_attribute(attrs, "type")?;
            let agent_type = match &type_str {
                Some(t) => if str_eq(t.as_str(), "person") {
                    AgentType::Person
                } else if str_eq(t.as_str(), "group") {
                    AgentType::Group
                } else {
                    AgentType::Other
                },
                None => AgentType::Other,
            };
            state.agent_store.insert(Agent { id: to_owned_string(id.as_str()), name: None, agent_type });
            state.metadata_state.context = MetadataContext::InAgent { id: Some(id) };
        },
        None => {
            warnings.push(to_owned_string("发现一个没有 xml:id 的 <ttm:agent> 标签，已忽略。"));
        },
    }
    Ok(())
}

/// The singers `a1` are `a0` after the name text `t` of the singer `aid`:
/// its trimmed text, when not blank, becomes the singer's name.
pub open spec fn named_from_text(
    a0: Map<Seq<char>, AgentView>,
    a1: Map<Seq<char>, AgentView>,
    aid: Seq<char>,
    t: Seq<char>,
) -> bool {
    if trim(t).len() > 0 && a0.contains_key(aid) {
        a1 == a0.insert(aid, AgentView { id: aid, name: Some(trim(t)), agent_type: a0[aid].agent_type })
    } else {
        a1 == a0
    }
}

/// `<ttm:name>` inside a singer with an id: its text, trimmed, becomes the
/// singer's name when not blank.
fn name_start(name: &str, reader: &mut XmlSource, state: &mut TtmlParserState) -> (r: Result<
    (),
    ConvertError,
>)
    requires
        old(state).wf(),
    ensures
        final(state).is_line_timing_mode == old(state).is_line_timing_mode,
        final(reader).text() == old(reader).text(),
        final(reader).history() == if old(state).metadata_state.context matches MetadataContext::InAgent { id: Some(_) } {
            old(reader).history().push(ReadOp::Text(name@))
        } else {
            old(reader).history()
        },
        r is Err <==> (old(state).metadata_state.context matches MetadataContext::InAgent { id: Some(_) } && xml_text_fails(
            old(reader).text(),
            old(reader).history(),
            name@,
        )),
        r matches Err(e) ==> is_parse_error(e),
        final(state).wf(),
        parts_kept(*old(state), *final(state)),
        final(state).metadata_state == old(state).metadata_state,
        final(state).agent_store@.dom() == old(state).agent_store@.dom(),
        match old(state).metadata_state.context {
            MetadataContext::InAgent { id: Some(aid) } => r is Ok ==> named_from_text(
                old(state).agent_store@,
                final(state).agent_store@,
                aid@,
                xml_text_at(old(reader).text(), old(reader).history(), name@)->Ok_0,
            ),
            _ => r is Ok && *final(state) == *old(state),
        },
{
    match &state.metadata_state.context {
        MetadataContext::InAgent { id: Some(agent_id) } => {
            let text = match read_element_text(reader, name) {
                Ok(t) => t,
                Err(e) => {
                    return Err(ConvertError::Xml(e));
                },
            };
            if !is_blank(text.as_str()) {
                let updated = match state.agent_store.get(agent_id.as_str()) {
                    Some(a) => Some(
                        Agent {
                            id: to_owned_string(agent_id.as_str()),
                            name: Some(trim_string(text.as_str())),
                            agent_type: a.agent_type,
                        },
                    ),
                    None => None,
                };
                match updated {
                    Some(a) => {
                        assert(old(state).agent_store@.contains_key(a.id@));
                        state.agent_store.insert(a);
                        assert(final(state).agent_store@.dom() =~= old(state).agent_store@.dom());
                    },
                    None => {},
                }
            }
            assert(named_from_text(old(state).agent_store@, state.agent_store@, agent_id@, text@));
        },
        _ => {},
    }
    Ok(())
}

/// `<amll:meta>`: the value (its `value` attribute, else its text) is added
/// to the raw metadata under its `key`, when the key is not empty.
fn meta_start(
    name: &str,
    attrs: &Result<Vec<(String, String)>, String>,
    reader: &mut XmlSource,
    raw_metadata: &mut Vec<(String, Vec<String>)>,
) -> (r: Result<(), ConvertError>)
    ensures
        final(reader).text() == old(reader).text(),
        final(reader).history() == if attrs is Ok {
            old(reader).history().push(ReadOp::Text(name@))
        } else {
            old(reader).history()
        },
        r is Err <==> attrs is Err || xml_text_fails(old(reader).text(), old(reader).history(), name@),
        r matches Err(e) ==> is_parse_error(e),
        attrs matches Err(e) ==> r matches Err(ConvertError::Attribute(m)) && m@ == e@,
        attrs is Ok && r is Err ==> r matches Err(ConvertError::Xml(_)),
        r is Err ==> final(raw_metadata)@ == old(raw_metadata)@,
        r is Ok ==> meta_entry_added(
            old(raw_metadata)@,
            final(raw_metadata)@,
            attr_value(attrs_or_none(*attrs), "key"@),
            attr_value(attrs_or_none(*attrs), "value"@),
            xml_text_at(old(reader).text(), old(reader).history(), name@)->Ok_0,
        ),
{
    let key_attr = string_attribute(attrs, "key")?;
    let value_attr = string_attribute(attrs, "value")?;
    let text_content = match read_element_text(reader, name) {
        Ok(t) => t,
        Err(e) => {
            return Err(ConvertError::Xml(e));
        },
    };
    add_meta_entry(raw_metadata, key_attr, value_attr, text_content);
    Ok(())
}

/// The raw metadata `r1` is `r0` after a metadata entry with the attributes
/// `key` and `value` and the text `text`: the value (else the text) added
/// under the key when the key is there and not empty; else nothing.
pub open spec fn meta_entry_added(
    r0: Seq<(String, Vec<String>)>,
    r1: Seq<(String, Vec<String>)>,
    key: Option<Seq<char>>,
    value: Option<Seq<char>>,
    text: Seq<char>,
) -> bool {
    match key {
        Some(k) => if k.len() > 0 {
            raw_pushed(raw_view(r0), raw_view(r1), k, if value is Some { value.unwrap() } else { text })
        } else {
            r1 == r0
        },
        None => r1 == r0,
    }
}

/// Adds a metadata entry read from `<amll:meta>` with the text `text` the
/// reader found inside it (see `meta_entry_added`).
pub fn add_meta_entry(
    raw_metadata: &mut Vec<(String, Vec<String>)>,
    key: Option<String>,
    value: Option<String>,
    text: String,
)
    ensures
        meta_entry_added(old(raw_metadata)@, final(raw_metadata)@, opt_text(key), opt_text(value), text@),
{
    match key {
        Some(key) => {
            let value = match value {
                Some(v) => v,
                None => text,
            };
            if !text_is_empty(key.as_str()) {
                push_raw_metadata(raw_metadata, key.as_str(), value);
            }
        },
        None => {},
    }
}

/// `<translation>` or `<transliteration>` inside their container: an entry
/// in the language of its `xml:lang` attribute.
fn entry_start(attrs: &Result<Vec<(String, String)>, String>, state: &mut TtmlParserState) -> (r: Result<
    (),
    ConvertError,
>)
    requires
        old(state).wf(),
    ensures
        final(state).is_line_timing_mode == old(state).is_line_timing_mode,
        r matches Err(e) ==> is_parse_error(e),
        final(state).wf(),
        parts_kept(*old(state), *final(state)),
        final(state).agent_store == old(state).agent_store,
        old(state).metadata_state.context is InAuxiliaryContainer ==> (attrs is Err <==> r is Err),
        old(state).metadata_state.context !is InAuxiliaryContainer ==> r is Ok,
        r is Ok ==> final(state).metadata_state.context@ == context_after_start(
            old(state).metadata_state.context@,
            "translation"@,
            attrs_or_none(*attrs),
        ),
{
    proof {
        lemma_tag_names();
    }
    let aux = match &state.metadata_state.context {
        MetadataContext::InAuxiliaryContainer { aux_type } => Some(*aux_type),
        _ => None,
    };
    match aux {
        Some(aux_type) => {
            let lang = string_attribute(attrs, "xml:lang")?;
            state.metadata_state.context = MetadataContext::InAuxiliaryEntry { aux_type, lang };
        },
        None => {},
    }
    Ok(())
}

/// `<text>` inside an entry: the text of the line keyed by its `for`
/// attribute, with everything gathered for the previous one cleared.
fn text_start(attrs: &Result<Vec<(String, String)>, String>, state: &mut TtmlParserState) -> (r: Result<
    (),
    ConvertError,
>)
    requires
        old(state).wf(),
    ensures
        final(state).is_line_timing_mode == old(state).is_line_timing_mode,
        r matches Err(e) ==> is_parse_error(e),
        final(state).wf(),
        parts_kept(*old(state), *final(state)),
        final(state).agent_store == old(state).agent_store,
        old(state).metadata_state.context is InAuxiliaryEntry ==> (attrs is Err <==> r is Err),
        old(state).metadata_state.context !is InAuxiliaryEntry ==> r is Ok && final(state).metadata_state
            == old(state).metadata_state,
        r is Ok ==> final(state).metadata_state.context@ == context_after_start(
            old(state).metadata_state.context@,
            "text"@,
            attrs_or_none(*attrs),
        ),
        r is Ok && old(state).metadata_state.context is InAuxiliaryEntry ==> {
            let m = final(state).metadata_state;
            &&& m.current_main_plain_text@.len() == 0 && m.current_bg_plain_text@.len() == 0
            &&& m.current_main_syllables@.len() == 0 && m.current_bg_syllables@.len() == 0
            &&& m.span_stack@.len() == 0 && m.text_buffer@.len() == 0
        },
{
    proof {
        lemma_tag_names();
    }
    let entry = match &state.metadata_state.context {
        MetadataContext::InAuxiliaryEntry { aux_type, lang } => Some((*aux_type, copy_opt(lang))),
        _ => None,
    };
    match entry {
        Some((aux_type, lang)) => {
            let key = string_attribute(attrs, "for")?;
            let ms = &mut state.metadata_state;
            ms.context = MetadataContext::InAuxiliaryText { aux_type, lang, key };
            ms.current_main_plain_text = String::new();
            ms.current_bg_plain_text = String::new();
            ms.current_main_syllables = Vec::new();
            ms.current_bg_syllables = Vec::new();
            ms.span_stack = Vec::new();
            ms.text_buffer = String::new();
        },
        None => {},
    }
    Ok(())
}

/// `<span>` inside `<text>`: a span with its role and times is opened.
fn span_start(
    attrs: &Result<Vec<(String, String)>, String>,
    state: &mut TtmlParserState,
    warnings: &mut Vec<String>,
) -> (r: Result<(), ConvertError>)
    requires
        old(state).wf(),
    ensures
        final(state).is_line_timing_mode == old(state).is_line_timing_mode,
        r matches Err(e) ==> is_parse_error(e),
        final(state).wf(),
        parts_kept(*old(state), *final(state)),
        final(state).agent_store == old(state).agent_store,
        final(state).metadata_state.context == old(state).metadata_state.context,
        old(state).metadata_state.context is InAuxiliaryText ==> (attrs is Err <==> r is Err),
        old(state).metadata_state.context !is InAuxiliaryText ==> r is Ok && final(state).metadata_state
            == old(state).metadata_state,
        r is Ok && old(state).metadata_state.context is InAuxiliaryText ==> {
            let m = final(state).metadata_state;
            let a = attrs_or_none(*attrs);
            &&& m.span_stack@.drop_last() == old(state).metadata_state.span_stack@
            &&& m.span_stack@.len() == old(state).metadata_state.span_stack@.len() + 1
            &&& m.span_stack@.last().role == role_of_value(
                if attr_value(a, "ttm:role"@) is Some {
                    attr_value(a, "ttm:role"@)
                } else {
                    attr_value(a, "role"@)
                },
            )
            &&& m.span_stack@.last().start_ms == time_attr_value(a, "begin"@)
            &&& m.span_stack@.last().end_ms == time_attr_value(a, "end"@)
            &&& m.text_buffer@.len() == 0
        },
{
    proof {
        reveal_strlit("x-bg");
    }
    if in_aux_text(&state.metadata_state.context) {
        state.metadata_state.text_buffer = String::new();
        let role_value = string_attribute_or(attrs, "ttm:role", "role")?;
        let role = match &role_value {
            Some(v) => if str_eq(v.as_str(), "x-bg") {
                SpanRole::Background
            } else {
                SpanRole::Generic
            },
            None => SpanRole::Generic,
        };
        let start_ms = time_attribute(attrs, "begin", warnings)?;
        let end_ms = time_attribute(attrs, "end", warnings)?;
        state.metadata_state.span_stack.push(SpanContext { role, start_ms, end_ms, lang: None, scheme: None });
    }
    Ok(())
}

/// The singers after `<ttm:agent>` with attributes `a`: one with an id is
/// recorded, without a name, with the type of its `type` attribute.
pub open spec fn agents_after_agent_tag(agents: Map<Seq<char>, AgentView>, a: Seq<(String, String)>) -> Map<
    Seq<char>,
    AgentView,
> {
    match attr_value(a, "xml:id"@) {
        Some(id) => agents.insert(id, AgentView { id, name: None, agent_type: agent_type_of(attr_value(a, "type"@)) }),
        None => agents,
    }
}

/// Nothing is gathered yet for a `<text>` just opened.
pub open spec fn text_opened(m: MetadataParseState) -> bool {
    &&& m.current_main_plain_text@.len() == 0 && m.current_bg_plain_text@.len() == 0
    &&& m.current_main_syllables@.len() == 0 && m.current_bg_syllables@.len() == 0
    &&& m.span_stack@.len() == 0 && m.text_buffer@.len() == 0
}

/// `m1` is `m0` with a `<span>` opened with attributes `a`: its role (by
/// `ttm:role`, else `role`) and its times (see `time_attr_value`), with an
/// empty text.
pub open spec fn span_opened(m0: MetadataParseState, m1: MetadataParseState, a: Seq<(String, String)>) -> bool {
    &&& m1.span_stack@.drop_last() == m0.span_stack@
    &&& m1.span_stack@.len() == m0.span_stack@.len() + 1
    &&& m1.span_stack@.last().role == role_of_value(
        if attr_value(a, "ttm:role"@) is Some {
            attr_value(a, "ttm:role"@)
        } else {
            attr_value(a, "role"@)
        },
    )
    &&& m1.span_stack@.last().start_ms == time_attr_value(a, "begin"@)
    &&& m1.span_stack@.last().end_ms == time_attr_value(a, "end"@)
    &&& m1.text_buffer@.len() == 0
}

/// Whether an event inside `<metadata>` reads the text of its element (see
/// `metadata_reads`).
pub open spec fn metadata_event_reads(e: XmlEvent, ctx: MetadataContext) -> bool {
    e matches XmlEvent::Start { name, attributes, .. } && metadata_reads(name@, attributes is Ok, ctx)
}

/// Whether the start of the element `name` inside `<metadata>` reads the
/// element's text: a metadata entry with readable attributes, or a name
/// inside a singer with an id.
pub open spec fn metadata_reads(name: Seq<char>, attrs_ok: bool, ctx: MetadataContext) -> bool {
    ||| is_meta_tag(name) && attrs_ok
    ||| is_name_tag(name) && ctx matches MetadataContext::InAgent { id: Some(_) }
}

/// Handles the start of an element inside `<metadata>` (see
/// `context_after_start` for the context it leaves).
fn metadata_start(
    name: &str,
    attrs: &Result<Vec<(String, String)>, String>,
    reader: &mut XmlSource,
    state: &mut TtmlParserState,
    raw_metadata: &mut Vec<(String, Vec<String>)>,
    warnings: &mut Vec<String>,
) -> (r: Result<(), ConvertError>)
    requires
        old(state).wf(),
    ensures
        final(state).is_line_timing_mode == old(state).is_line_timing_mode,
        final(reader).text() == old(reader).text(),
        final(reader).history() == if metadata_reads(name@, attrs is Ok, old(state).metadata_state.context) {
            old(reader).history().push(ReadOp::Text(name@))
        } else {
            old(reader).history()
        },
        r is Err ==> attrs is Err || metadata_reads(name@, attrs is Ok, old(state).metadata_state.context)
            && xml_text_fails(old(reader).text(), old(reader).history(), name@),
        metadata_reads(name@, attrs is Ok, old(state).metadata_state.context) && xml_text_fails(
            old(reader).text(),
            old(reader).history(),
            name@,
        ) ==> r is Err,
        (is_meta_tag(name@) && attrs is Ok || is_name_tag(name@)) && !xml_text_fails(
            old(reader).text(),
            old(reader).history(),
            name@,
        ) ==> r is Ok,
        r matches Err(e) ==> is_parse_error(e),
        final(state).wf(),
        parts_kept(*old(state), *final(state)),
        attrs is Ok && !is_name_tag(name@) && !is_meta_tag(name@) ==> r is Ok,
        attrs is Err && (is_agent_tag(name@) || is_meta_tag(name@)) ==> r is Err,
        r is Ok ==> final(state).metadata_state.context@ == context_after_start(
            old(state).metadata_state.context@,
            name@,
            attrs_or_none(*attrs),
        ),
        r is Ok && is_agent_tag(name@) ==> final(state).agent_store@ == agents_after_agent_tag(
            old(state).agent_store@,
            attrs_or_none(*attrs),
        ),
        is_name_tag(name@) ==> final(state).agent_store@.dom() == old(state).agent_store@.dom(),
        !is_agent_tag(name@) && !is_name_tag(name@) ==> final(state).agent_store == old(state).agent_store,
        r is Ok && is_meta_tag(name@) ==> meta_entry_added(
            old(raw_metadata)@,
            final(raw_metadata)@,
            attr_value(attrs_or_none(*attrs), "key"@),
            attr_value(attrs_or_none(*attrs), "value"@),
            xml_text_at(old(reader).text(), old(reader).history(), name@)->Ok_0,
        ),
        r is Ok && is_name_tag(name@) ==> match old(state).metadata_state.context {
            MetadataContext::InAgent { id: Some(aid) } => named_from_text(
                old(state).agent_store@,
                final(state).agent_store@,
                aid@,
                xml_text_at(old(reader).text(), old(reader).history(), name@)->Ok_0,
            ),
            _ => final(state).agent_store == old(state).agent_store,
        },
        !is_meta_tag(name@) ==> final(raw_metadata)@ == old(raw_metadata)@,
        r is Ok && name@ == "text"@ && old(state).metadata_state.context is InAuxiliaryEntry ==> text_opened(
            final(state).metadata_state,
        ),
        r is Ok && name@ == "span"@ && old(state).metadata_state.context is InAuxiliaryText ==> span_opened(
            old(state).metadata_state,
            final(state).metadata_state,
            attrs_or_none(*attrs),
        ),
{
    proof {
        lemma_tag_names();
    }
    if str_eq(name, "agent") || str_eq(name, "ttm:agent") {
        agent_start(attrs, state, warnings)
    } else if str_eq(name, "name") || str_eq(name, "ttm:name") {
        name_start(name, reader, state)
    } else if str_eq(name, "meta") || str_eq(name, "amll:meta") {
        meta_start(name, attrs, reader, raw_metadata)
    } else if str_eq(name, "iTunesMetadata") {
        state.metadata_state.context = MetadataContext::InITunesMetadata;
        Ok(())
    } else if str_eq(name, "songwriter") {
        if matches!(state.metadata_state.context, MetadataContext::InITunesMetadata) {
            state.metadata_state.context = MetadataContext::InSongwriter;
        }
        Ok(())
    } else if str_eq(name, "translations") {
        if matches!(state.metadata_state.context, MetadataContext::InITunesMetadata) {
            state.metadata_state.context = MetadataContext::InAuxiliaryContainer {
                aux_type: AuxTrackType::Translation,
            };
        }
        Ok(())
    } else if str_eq(name, "transliterations") {
        if matches!(state.metadata_state.context, MetadataContext::InITunesMetadata) {
            state.metadata_state.context = MetadataContext::InAuxiliaryContainer {
                aux_type: AuxTrackType::Romanization,
            };
        }
        Ok(())
    } else if str_eq(name, "translation") || str_eq(name, "transliteration") {
        entry_start(attrs, state)
    } else if str_eq(name, "text") {
        text_start(attrs, state)
    } else if str_eq(name, "span") {
        span_start(attrs, state, warnings)
    } else {
        Ok(())
    }
}

/// `m1` is `m0` after `</span>` inside `<metadata>`: inside `<text>`, the
/// span is closed; a timed one becomes a syllable of the main or background
/// annotation, an untimed one adds its text (when not blank) to the plain
/// annotation text.
pub open spec fn span_closed(m0: MetadataParseState, m1: MetadataParseState) -> bool {
    if m0.context is InAuxiliaryText && m0.span_stack@.len() > 0 {
        let ended = m0.span_stack@.last();
        let raw = m0.text_buffer@;
        let bg = ended.role == SpanRole::Background || within_background(m0.span_stack@.drop_last());
        &&& m1.span_stack@ == m0.span_stack@.drop_last()
        &&& m1.text_buffer@.len() == 0
        &&& if ended.start_ms is Some && ended.end_ms is Some {
            &&& m1.current_main_plain_text == m0.current_main_plain_text
            &&& m1.current_bg_plain_text == m0.current_bg_plain_text
            &&& if bg {
                &&& syllable_added(
                    m0.current_bg_syllables@,
                    m1.current_bg_syllables@,
                    ended.start_ms.unwrap(),
                    ended.end_ms.unwrap(),
                    raw,
                    true,
                )
                &&& m1.current_main_syllables == m0.current_main_syllables
            } else {
                &&& syllable_added(
                    m0.current_main_syllables@,
                    m1.current_main_syllables@,
                    ended.start_ms.unwrap(),
                    ended.end_ms.unwrap(),
                    raw,
                    false,
                )
                &&& m1.current_bg_syllables == m0.current_bg_syllables
            }
        } else {
            &&& m1.current_main_syllables == m0.current_main_syllables
            &&& m1.current_bg_syllables == m0.current_bg_syllables
            &&& m1.current_main_plain_text@ == m0.current_main_plain_text@ + if !bg && trim(raw).len() > 0 {
                raw
            } else {
                Seq::empty()
            }
            &&& m1.current_bg_plain_text@ == m0.current_bg_plain_text@ + if bg && trim(raw).len() > 0 {
                raw
            } else {
                Seq::empty()
            }
        }
    } else {
        m1 == m0
    }
}

/// Handles the end of a `<span>` inside `<metadata>`: a timed span becomes a
/// syllable of the main or background annotation; an untimed one adds its
/// text to the plain annotation text.
fn metadata_span_end(state: &mut TtmlParserState)
    requires
        old(state).wf(),
    ensures
        final(state).is_line_timing_mode == old(state).is_line_timing_mode,
        final(state).wf(),
        parts_kept(*old(state), *final(state)),
        final(state).agent_store == old(state).agent_store,
        final(state).metadata_state.context == old(state).metadata_state.context,
        span_closed(old(state).metadata_state, final(state).metadata_state),
{
    if !in_aux_text(&state.metadata_state.context) || state.metadata_state.span_stack.len() == 0 {
        return;
    }
    let ghost m0 = state.metadata_state;
    match state.metadata_state.span_stack.pop() {
        Some(ended) => {
            assert(ended == m0.span_stack@.last());
            let mut raw_text = String::new();
            std::mem::swap(&mut raw_text, &mut state.metadata_state.text_buffer);
            assert(raw_text@ == m0.text_buffer@);
            let is_bg = ended.role == SpanRole::Background || any_background(&state.metadata_state.span_stack);
            assert(is_bg == (ended.role == SpanRole::Background || within_background(m0.span_stack@.drop_last())));
            match (ended.start_ms, ended.end_ms) {
                (Some(start_ms), Some(end_ms)) => {
                    if is_bg {
                        process_syllable(
                            start_ms,
                            end_ms,
                            raw_text.as_str(),
                            true,
                            &mut state.text_processing_buffer,
                            &mut state.metadata_state.current_bg_syllables,
                        );
                    } else {
                        process_syllable(
                            start_ms,
                            end_ms,
                            raw_text.as_str(),
                            false,
                            &mut state.text_processing_buffer,
                            &mut state.metadata_state.current_main_syllables,
                        );
                    }
                },
                _ => {
                    if !is_blank(raw_text.as_str()) {
                        if is_bg {
                            push_str(&mut state.metadata_state.current_bg_plain_text, raw_text.as_str());
                        } else {
                            push_str(&mut state.metadata_state.current_main_plain_text, raw_text.as_str());
                        }
                    }
                },
            }
        },
        None => {},
    }
}

/// A track of one word made of the given syllables, with its language.
fn syllables_track(syllables: Vec<LyricSyllable>, lang: &Option<String>) -> (t: LyricTrack)
    ensures
        t.words@.len() == 1,
        t.words@[0].syllables == syllables,
        t.words@[0].furigana is None,
        crate::types::has_only_entry(t, TrackMetadataKey::Language, opt_text(*lang)),
{
    let mut words: Vec<Word> = Vec::new();
    words.push(Word { syllables, furigana: None });
    let mut metadata: Vec<(TrackMetadataKey, String)> = Vec::new();
    match lang {
        Some(l) => metadata.push((TrackMetadataKey::Language, to_owned_string(l.as_str()))),
        None => {},
    }
    LyricTrack { words, metadata }
}

/// The line translations hold one for `key` with the main text, the
/// background text and the language of `entry`.
pub open spec fn has_line_translation(
    map: Seq<(String, LineTranslation, Option<String>)>,
    key: Seq<char>,
    entry: (Option<Seq<char>>, Option<Seq<char>>, Option<Seq<char>>),
) -> bool {
    exists|i: int|
        0 <= i < map.len() && (#[trigger] map[i]).0@ == key && (
            opt_text(map[i].1.main),
            opt_text(map[i].1.background),
            opt_text(map[i].2),
        ) == entry
}

/// The timed tracks hold an entry for `key`.
pub open spec fn has_timed_entry(map: Seq<(String, DetailedAuxiliaryTracks)>, key: Seq<char>) -> bool {
    exists|i: int| 0 <= i < map.len() && (#[trigger] map[i]).0@ == key
}

/// `m1` is `m0` after `</text>` inside `<metadata>` for a keyed text: the
/// plain text of a translation becomes the key's line translation (see
/// `has_line_translation`); syllables become timed tracks of the key (see
/// `has_timed_entry`); the plain texts are cleared.
pub open spec fn text_closed(m0: MetadataParseState, m1: MetadataParseState) -> bool {
    m0.context matches MetadataContext::InAuxiliaryText { aux_type, lang, key: Some(k) }
        ==> {
        let main = trim(m0.current_main_plain_text@);
        let bg = trim(m0.current_bg_plain_text@);
        let hm = m0.current_main_syllables@.len() > 0;
        let hb = m0.current_bg_syllables@.len() > 0;
        let plain = !hm && !hb && (main.len() > 0 || bg.len() > 0) && aux_type == AuxTrackType::Translation;
        &&& m1.current_main_plain_text@.len() == 0 && m1.current_bg_plain_text@.len() == 0
        &&& plain ==> has_line_translation(
            m1.line_translation_map@,
            k@,
            (if main.len() > 0 {
                Some(main)
            } else {
                None
            }, if bg.len() > 0 {
                Some(bg)
            } else {
                None
            }, opt_text(lang)),
        )
        &&& !plain ==> m1.line_translation_map == m0.line_translation_map
        &&& (hm || hb) ==> has_timed_entry(m1.timed_track_map@, k@) && (hm ==> m1.current_main_syllables@.len()
            == 0) && (hb ==> m1.current_bg_syllables@.len() == 0)
        &&& !(hm || hb) ==> m1.timed_track_map == m0.timed_track_map
    }
}

/// Handles `</text>` inside `<metadata>`: plain text of a translation
/// becomes the line translation of its key; syllables become timed
/// annotation tracks of the key.
fn metadata_text_end(state: &mut TtmlParserState)
    requires
        old(state).wf(),
    ensures
        final(state).is_line_timing_mode == old(state).is_line_timing_mode,
        final(state).wf(),
        final(state).body_state == old(state).body_state,
        final(state).in_metadata == old(state).in_metadata,
        final(state).agent_store == old(state).agent_store,
        final(state).metadata_state.context@ == context_after_end(old(state).metadata_state.context@, "text"@),
        old(state).metadata_state.context !is InAuxiliaryText ==> final(state).metadata_state == old(
            state,
        ).metadata_state,
        text_closed(old(state).metadata_state, final(state).metadata_state),
{
    proof {
        lemma_tag_names();
    }
    let current = match &state.metadata_state.context {
        MetadataContext::InAuxiliaryText { aux_type, lang, key } => Some((*aux_type, copy_opt(lang), copy_opt(key))),
        _ => None,
    };
    match current {
        Some((aux_type, lang, key)) => {
            match key {
                Some(text_key) => {
                    let ms = &mut state.metadata_state;
                    let main_plain_text = trim_string(ms.current_main_plain_text.as_str());
                    let bg_plain_text = trim_string(ms.current_bg_plain_text.as_str());
                    let has_plain_text = !text_is_empty(main_plain_text.as_str()) || !text_is_empty(
                        bg_plain_text.as_str(),
                    );
                    let has_main_syllables = ms.current_main_syllables.len() > 0;
                    let has_bg_syllables = ms.current_bg_syllables.len() > 0;
                    if !has_main_syllables && !has_bg_syllables && has_plain_text && aux_type
                        == AuxTrackType::Translation {
                        let line_translation = LineTranslation {
                            main: if text_is_empty(main_plain_text.as_str()) {
                                None
                            } else {
                                Some(main_plain_text)
                            },
                            background: if text_is_empty(bg_plain_text.as_str()) {
                                None
                            } else {
                                Some(bg_plain_text)
                            },
                        };
                        let ghost kv = text_key@;
                        let ghost entry_view = (
                            opt_text(line_translation.main),
                            opt_text(line_translation.background),
                            opt_text(lang),
                        );
                        match find_line_translation(&ms.line_translation_map, text_key.as_str()) {
                            Some(i) => {
                                ms.line_translation_map.set(i, (text_key, line_translation, copy_opt(&lang)));
                                let ghost e = ms.line_translation_map@[i as int];
                                assert(e.0@ == kv && (opt_text(e.1.main), opt_text(e.1.background), opt_text(e.2))
                                    == entry_view);
                                assert(has_line_translation(ms.line_translation_map@, kv, entry_view));
                            },
                            None => {
                                ms.line_translation_map.push((text_key, line_translation, copy_opt(&lang)));
                                let ghost e = ms.line_translation_map@[ms.line_translation_map@.len() - 1];
                                assert(e.0@ == kv && (opt_text(e.1.main), opt_text(e.1.background), opt_text(e.2))
                                    == entry_view);
                                assert(has_line_translation(ms.line_translation_map@, kv, entry_view));
                            },
                        }
                    } else if has_main_syllables || has_bg_syllables {
                        let e = timed_entry(&mut ms.timed_track_map, text_key.as_str());
                        if has_main_syllables {
                            let mut syllables: Vec<LyricSyllable> = Vec::new();
                            std::mem::swap(&mut syllables, &mut ms.current_main_syllables);
                            let track = syllables_track(syllables, &lang);
                            match aux_type {
                                AuxTrackType::Translation => ms.timed_track_map[e].1.main_tracks.translations.push(track),
                                AuxTrackType::Romanization => ms.timed_track_map[e].1.main_tracks.romanizations.push(track),
                            }
                        }
                        if has_bg_syllables {
                            let mut syllables: Vec<LyricSyllable> = Vec::new();
                            std::mem::swap(&mut syllables, &mut ms.current_bg_syllables);
                            let track = syllables_track(syllables, &lang);
                            match aux_type {
                                AuxTrackType::Translation => ms.timed_track_map[e].1.background_tracks.translations.push(
                                    track,
                                ),
                                AuxTrackType::Romanization => ms.timed_track_map[e].1.background_tracks.romanizations.push(
                                    track,
                                ),
                            }
                        }
                    }
                    ms.current_main_plain_text = String::new();
                    ms.current_bg_plain_text = String::new();
                },
                None => {},
            }
            state.metadata_state.context = MetadataContext::InAuxiliaryEntry { aux_type, lang };
        },
        None => {},
    }
}

/// Handles an event inside `<metadata>`: singers and their names, `<meta>`
/// entries, songwriters, and the translations and transliterations of
/// `<iTunesMetadata>` (line translations and timed annotation tracks).
pub fn handle_metadata_event(
    event: &XmlEvent,
    reader: &mut XmlSource,
    state: &mut TtmlParserState,
    raw_metadata: &mut Vec<(String, Vec<String>)>,
    warnings: &mut Vec<String>,
) -> (r: Result<(), ConvertError>)
    requires
        old(state).wf(),
    ensures
        final(reader).text() == old(reader).text(),
        metadata_event_done(*event, *old(state), *final(state), old(raw_metadata)@, final(raw_metadata)@, old(reader).text(), old(reader).history(), final(reader).history(), r),
{
    proof {
        lemma_tag_names();
        reveal_strlit("songwriters");
    }
    match event {
        XmlEvent::Start { name, attributes, .. } => {
            metadata_start(name.as_str(), attributes, reader, state, raw_metadata, warnings)?;
        },
        XmlEvent::Text { content, .. } => {
            if state.metadata_state.span_stack.len() > 0 {
                push_str(&mut state.metadata_state.text_buffer, content.as_str());
            } else if in_aux_text(&state.metadata_state.context) {
                push_str(&mut state.metadata_state.current_main_plain_text, content.as_str());
            } else if matches!(state.metadata_state.context, MetadataContext::InSongwriter) {
                push_raw_metadata(raw_metadata, "songwriters", to_owned_string(content.as_str()));
            }
        },
        XmlEvent::End { name, .. } => {
            let n = name.as_str();
            if str_eq(n, "metadata") {
                state.in_metadata = false;
            } else if str_eq(n, "iTunesMetadata") {
                state.metadata_state.context = MetadataContext::Outside;
            } else if str_eq(n, "songwriter") {
                state.metadata_state.context = MetadataContext::InITunesMetadata;
            } else if str_eq(n, "agent") || str_eq(n, "ttm:agent") {
                state.metadata_state.context = MetadataContext::Outside;
            } else if str_eq(n, "translations") || str_eq(n, "transliterations") {
                state.metadata_state.context = MetadataContext::InITunesMetadata;
            } else if str_eq(n, "translation") || str_eq(n, "transliteration") {
                let aux = match &state.metadata_state.context {
                    MetadataContext::InAuxiliaryEntry { aux_type, .. } => Some(*aux_type),
                    _ => None,
                };
                match aux {
                    Some(aux_type) => {
                        state.metadata_state.context = MetadataContext::InAuxiliaryContainer { aux_type };
                    },
                    None => {},
                }
            } else if str_eq(n, "span") {
                metadata_span_end(state);
            } else if str_eq(n, "text") {
                metadata_text_end(state);
            }
        },
        _ => {},
    }
    Ok(())
}

// ---------------------------------------------------------------------------
// The document
// ---------------------------------------------------------------------------

/// Recovers from an ill-formed part of the document: inside a `<p>`, the
/// line is finished with what it has; inside `<metadata>`, the metadata
/// gathered so far is dropped; elsewhere, the body state is reset.
pub fn attempt_recovery_from_error(
    state: &mut TtmlParserState,
    position: u64,
    lines: &mut Vec<LyricLine>,
    warnings: &mut Vec<String>,
    error: &str,
)
    requires
        old(state).wf(),
    ensures
        recovered(*old(state), *final(state), old(lines)@, final(lines)@),
{
    let mut w = to_owned_string("TTML 格式错误，位置 ");
    push_decimal(&mut w, position);
    push_str(&mut w, ": ");
    push_str(&mut w, error);
    push_str(&mut w, "。");
    warnings.push(w);
    if state.body_state.in_p {
        let start = match &state.body_state.current_p_element_data {
            Some(d) => d.start_ms,
            None => 0,
        };
        let mut w2 = to_owned_string("错误发生在 <p> 元素内部 (开始于 ");
        push_decimal(&mut w2, start);
        push_str(&mut w2, "ms)。尝试恢复已经解析的数据。");
        warnings.push(w2);
        handle_p_end(state, lines, warnings);
    } else if state.in_metadata {
        warnings.push(to_owned_string("错误发生在 <metadata> 块内部。放弃所有元数据。"));
        state.in_metadata = false;
        state.metadata_state = MetadataParseState::new();
    } else {
        warnings.push(to_owned_string("错误发生在全局作用域。将重置解析器状态，尝试寻找下一个有效元素。"));
        state.body_state = BodyParseState::new();
    }
}

/// A space, a tab, a carriage return, a form feed or a line feed.
pub open spec fn layout_char(c: char) -> bool {
    c == ' ' || c == '\t' || c == '\r' || c == '\u{c}' || c == '\n'
}

/// The text is made of `layout_char`s only and holds a line feed.
pub open spec fn newline_whitespace(s: Seq<char>) -> bool {
    &&& forall|k: int| 0 <= k < s.len() ==> #[trigger] layout_char(s[k])
    &&& exists|k: int| 0 <= k < s.len() && #[trigger] s[k] == '\n'
}

/// Whether a text is a whitespace-only text node holding a line break (a
/// sign of a formatted document).
fn is_newline_whitespace(raw: &str) -> (r: bool)
    ensures
        r == newline_whitespace(raw@),
{
    let v = chars_of(raw);
    let mut has_newline = false;
    let mut i: usize = 0;
    while i < v.len()
        invariant
            i <= v@.len(),
            v@ == raw@,
            forall|k: int| 0 <= k < i ==> #[trigger] layout_char(v@[k]),
            has_newline == exists|k: int| 0 <= k < i && #[trigger] v@[k] == '\n',
        decreases v@.len() - i,
    {
        let c = v[i];
        if c == '\n' {
            has_newline = true;
        } else if !(c == ' ' || c == '\t' || c == '\r' || c == '\u{c}') {
            assert(!layout_char(raw@[i as int]));
            return false;
        }
        i = i + 1;
    }
    has_newline
}

/// The state `fs`, raw metadata `fraw` and reads `fh` after an event inside
/// `<metadata>` (see `handle_metadata_event`), with the outcome `r`.
pub open spec fn metadata_event_done(
    event: XmlEvent,
    os: TtmlParserState,
    fs: TtmlParserState,
    oraw: Seq<(String, Vec<String>)>,
    fraw: Seq<(String, Vec<String>)>,
    c: Seq<char>,
    oh: Seq<ReadOp>,
    fh: Seq<ReadOp>,
    r: Result<(), ConvertError>,
) -> bool {
    &&& fs.is_line_timing_mode == os.is_line_timing_mode
    &&& fh == if metadata_event_reads(event, os.metadata_state.context) {
        oh.push(ReadOp::Text(event->Start_name@))
    } else {
        oh
    }
    &&& r is Err ==> (event matches XmlEvent::Start { attributes: Err(_), .. }) || metadata_event_reads(
        event,
        os.metadata_state.context,
    ) && xml_text_fails(c, oh, event->Start_name@)
    &&& metadata_event_reads(event, os.metadata_state.context) && xml_text_fails(
        c,
        oh,
        event->Start_name@,
    ) ==> r is Err
    &&& event matches XmlEvent::Start { name, attributes, .. } ==> ((is_meta_tag(name@) && attributes is Ok
        || is_name_tag(name@)) && !xml_text_fails(c, oh, name@) ==> r is Ok)
    &&& r matches Err(e) ==> is_parse_error(e)
    &&& fs.wf()
    &&& fs.body_state == os.body_state
    &&& match event {
        XmlEvent::Start { name, attributes, .. } => {
            let a = attrs_or_none(attributes);
            &&& fs.in_metadata == os.in_metadata
            &&& attributes is Ok && !is_name_tag(name@) && !is_meta_tag(name@) ==> r is Ok
            &&& attributes is Err && (is_agent_tag(name@) || is_meta_tag(name@)) ==> r is Err
            &&& r is Ok ==> fs.metadata_state.context@ == context_after_start(
                os.metadata_state.context@,
                name@,
                a,
            )
            &&& r is Ok && is_agent_tag(name@) ==> fs.agent_store@ == agents_after_agent_tag(
                os.agent_store@,
                a,
            )
            &&& is_name_tag(name@) ==> fs.agent_store@.dom() == os.agent_store@.dom()
            &&& !is_agent_tag(name@) && !is_name_tag(name@) ==> fs.agent_store == os.agent_store
            &&& r is Ok && is_meta_tag(name@) ==> meta_entry_added(
                oraw,
                fraw,
                attr_value(a, "key"@),
                attr_value(a, "value"@),
                xml_text_at(c, oh, name@)->Ok_0,
            )
            &&& r is Ok && is_name_tag(name@) ==> match os.metadata_state.context {
                MetadataContext::InAgent { id: Some(aid) } => named_from_text(
                    os.agent_store@,
                    fs.agent_store@,
                    aid@,
                    xml_text_at(c, oh, name@)->Ok_0,
                ),
                _ => fs.agent_store == os.agent_store,
            }
            &&& !is_meta_tag(name@) ==> fraw == oraw
            &&& r is Ok && name@ == "text"@ && os.metadata_state.context is InAuxiliaryEntry
                ==> text_opened(fs.metadata_state)
            &&& r is Ok && name@ == "span"@ && os.metadata_state.context is InAuxiliaryText
                ==> span_opened(os.metadata_state, fs.metadata_state, a)
        },
        XmlEvent::Text { content, .. } => {
            let m0 = os.metadata_state;
            let m1 = fs.metadata_state;
            &&& r is Ok
            &&& fs.in_metadata == os.in_metadata
            &&& fs.agent_store == os.agent_store
            &&& if m0.span_stack@.len() > 0 {
                &&& m1.text_buffer@ == m0.text_buffer@ + content@
                &&& fraw == oraw
            } else if m0.context is InAuxiliaryText {
                &&& m1.current_main_plain_text@ == m0.current_main_plain_text@ + content@
                &&& fraw == oraw
            } else if m0.context is InSongwriter {
                &&& raw_pushed(raw_view(oraw), raw_view(fraw), "songwriters"@, content@)
                &&& m1 == m0
            } else {
                m1 == m0 && fraw == oraw
            }
        },
        XmlEvent::End { name, .. } => {
            let m0 = os.metadata_state;
            let m1 = fs.metadata_state;
            &&& r is Ok
            &&& fraw == oraw
            &&& fs.agent_store == os.agent_store
            &&& fs.in_metadata == if name@ == "metadata"@ {
                false
            } else {
                os.in_metadata
            }
            &&& m1.context@ == context_after_end(m0.context@, name@)
            &&& name@ == "span"@ ==> span_closed(m0, m1)
            &&& name@ == "text"@ ==> text_closed(m0, m1)
        },
        _ => r is Ok && fs == os && fraw == oraw,
    }
}

/// The state `fs` and lines `fl` after an event inside `<p>` (see
/// `handle_p_event`), with the outcome `r`.
pub open spec fn p_event_done(
    event: XmlEvent,
    os: TtmlParserState,
    fs: TtmlParserState,
    ol: Seq<LyricLine>,
    fl: Seq<LyricLine>,
    r: Result<(), ConvertError>,
) -> bool {
    &&& fs.is_line_timing_mode == os.is_line_timing_mode
    &&& r matches Err(e) ==> is_parse_error(e)
    &&& fs.wf()
    &&& lines_have_data(ol) ==> lines_have_data(fl)
    &&& fs.agent_store == os.agent_store
    &&& fs.in_metadata == os.in_metadata
    &&& fs.metadata_state == os.metadata_state
    &&& match event {
        XmlEvent::Start { local_name, attributes, .. } => {
            &&& fl == ol
            &&& if local_name@ == "span"@ {
                &&& (attributes is Ok <==> r is Ok)
                &&& fs.body_state.in_p
                &&& attributes matches Ok(a) ==> span_pushed(
                    os.body_state.span_stack@,
                    fs.body_state.span_stack@,
                    a@,
                )
            } else {
                r is Ok && fs == os
            }
        },
        XmlEvent::Text { content, .. } => {
            &&& r is Ok && fl == ol
            &&& text_taken(os, fs, content@)
        },
        XmlEvent::GeneralRef(entity_name) => {
            let c = entity_char(entity_name@);
            let d0 = os.body_state.current_p_element_data->Some_0;
            let d1 = fs.body_state.current_p_element_data->Some_0;
            &&& r is Ok && fl == ol
            &&& fs.body_state.span_stack == os.body_state.span_stack
            &&& same_line_head(d0, d1) && d1.tracks_accumulator == d0.tracks_accumulator
            &&& if c == '\0' {
                fs == os
            } else if os.body_state.span_stack@.len() == 0 {
                d1.line_text_accumulator@ == d0.line_text_accumulator@.push(c) && fs.text_buffer
                    == os.text_buffer
            } else {
                fs.text_buffer@ == os.text_buffer@.push(c) && d1.line_text_accumulator
                    == d0.line_text_accumulator
            }
        },
        XmlEvent::End { local_name, .. } => {
            &&& r is Ok
            &&& if local_name@ == "p"@ {
                &&& !fs.body_state.in_p
                &&& fs.body_state.current_p_element_data is None
                &&& p_closed(os, ol, fl)
            } else if local_name@ == "span"@ {
                &&& fs.body_state.in_p
                &&& fl == ol
                &&& span_end_done(os, fs)
            } else {
                fs == os && fl == ol
            }
        },
        _ => r is Ok && fs == os && fl == ol,
    }
}

/// The state `fs`, raw metadata `fraw` and warnings `fw` after an event
/// outside `<metadata>` and `<p>` (see `handle_global_event`), with the
/// outcome `r`.
pub open spec fn global_event_done(
    event: XmlEvent,
    os: TtmlParserState,
    fs: TtmlParserState,
    oraw: Seq<(String, Vec<String>)>,
    fraw: Seq<(String, Vec<String>)>,
    ow: Seq<String>,
    fw: Seq<String>,
    has_timed_span_tags: bool,
    options: TtmlParsingOptions,
    r: Result<(), ConvertError>,
) -> bool {
    &&& is_tt_start(event) ==> (options.force_timing_mode matches Some(m) ==> fs.is_line_timing_mode == (m
        == TtmlTimingMode::Line))
    &&& !is_tt_start(event) ==> fs.is_line_timing_mode == os.is_line_timing_mode
    &&& r matches Err(e) ==> is_parse_error(e)
    &&& fs.wf()
    &&& match event {
        XmlEvent::Start { local_name, attributes, .. } => {
            let n = local_name@;
            let b = os.body_state;
            let fb = fs.body_state;
            &&& attributes is Ok ==> r is Ok
            &&& if n == "tt"@ {
                &&& (attributes is Err ==> r is Err)
                &&& fb == b
                &&& fs.in_metadata == os.in_metadata
                &&& attributes matches Ok(a) ==> tt_started(
                    os,
                    fs,
                    oraw,
                    fraw,
                    ow,
                    fw,
                    a@,
                    has_timed_span_tags,
                    options,
                )
            } else if n == "metadata"@ {
                r is Ok && fs.in_metadata && fb == b
            } else if n == "body"@ {
                &&& r is Ok && fb.in_body && fb.in_div == b.in_div && fb.in_p == b.in_p
                &&& fs.in_metadata == os.in_metadata
            } else if n == "div"@ && b.in_body {
                &&& (attributes is Err ==> r is Err)
                &&& attributes matches Ok(a) ==> fb.in_body && fb.in_div && fb.in_p == b.in_p && opt_text(
                    fb.current_div_song_part,
                ) == attr_value(a@, "itunes:song-part"@)
            } else if n == "p"@ && b.in_body {
                &&& (attributes is Err ==> r is Err)
                &&& attributes matches Ok(a) ==> {
                    &&& fb.in_body && fb.in_div == b.in_div && fb.in_p
                    &&& fb.current_div_song_part == b.current_div_song_part
                    &&& fb.current_p_element_data matches Some(d) && p_opened(
                        d,
                        a@,
                        b.current_div_song_part,
                        os.agent_store@,
                    )
                    &&& fb.span_stack@.len() == 0
                    &&& fs.text_buffer@.len() == 0
                    &&& fs.in_metadata == os.in_metadata
                }
            } else {
                r is Ok && fs == os
            }
        },
        XmlEvent::End { local_name, .. } => {
            &&& r is Ok
            &&& if local_name@ == "div"@ && os.body_state.in_div {
                &&& !fs.body_state.in_div && fs.body_state.current_div_song_part is None
                &&& fs.body_state.in_body == os.body_state.in_body
                &&& fs.body_state.in_p == os.body_state.in_p
                &&& fs.in_metadata == os.in_metadata
            } else {
                fs == os
            }
        },
        _ => r is Ok && fs == os,
    }
}

/// The state `fs` and lines `fl` after recovering from an error of the
/// reader (see `attempt_recovery_from_error`).
pub open spec fn recovered(os: TtmlParserState, fs: TtmlParserState, ol: Seq<LyricLine>, fl: Seq<LyricLine>) -> bool {
    &&& fs.is_line_timing_mode == os.is_line_timing_mode
    &&& fs.wf()
    &&& !fs.body_state.in_p
    &&& lines_have_data(ol) ==> lines_have_data(fl)
    &&& fs.agent_store == os.agent_store
    &&& if os.body_state.in_p {
        &&& p_closed(os, ol, fl)
        &&& fs.body_state.current_p_element_data is None
        &&& fs.in_metadata == os.in_metadata
        &&& fs.metadata_state == os.metadata_state
    } else if os.in_metadata {
        &&& !fs.in_metadata
        &&& fresh_metadata_state(fs.metadata_state)
        &&& fs.body_state == os.body_state
        &&& fl == ol
    } else {
        &&& fresh_body_state(fs.body_state)
        &&& fs.in_metadata == os.in_metadata
        &&& fs.metadata_state == os.metadata_state
        &&& fl == ol
    }
}

/// What the parser holds between two reads: its state, the lines so far,
/// the raw metadata, the warnings, and the reads made on the reader.
pub struct ParseSnapshot {
    pub state: TtmlParserState,
    pub lines: Seq<LyricLine>,
    pub raw: Seq<(String, Vec<String>)>,
    pub warnings: Seq<String>,
    pub history: Seq<ReadOp>,
}

/// How one step of the parse ends: it goes on, the document ended, or it
/// failed with an error.
pub enum StepEnd {
    Continue,
    Done,
    Failed(ConvertError),
}

/// The outcome of a handler that leads to the step end `end`.
pub open spec fn handler_result(end: StepEnd) -> Result<(), ConvertError> {
    match end {
        StepEnd::Failed(e) => Err(e),
        _ => Ok(()),
    }
}

/// The state after the bookkeeping of format detection that comes before
/// each read: one more node counted, and formatted input decided after more
/// than five whitespace nodes with a line break, unformatted after more
/// than five thousand nodes.
pub open spec fn format_checked(st: TtmlParserState) -> TtmlParserState {
    if st.format_detection == FormatDetection::Undetermined {
        let t: u32 = if st.total_nodes_processed < u32::MAX {
            (st.total_nodes_processed + 1) as u32
        } else {
            st.total_nodes_processed
        };
        let fd = if st.whitespace_nodes_with_newline > 5 {
            FormatDetection::IsFormatted
        } else if t > 5000 {
            FormatDetection::NotFormatted
        } else {
            FormatDetection::Undetermined
        };
        TtmlParserState { total_nodes_processed: t, format_detection: fd, ..st }
    } else {
        st
    }
}

/// The state after a read event: a whitespace text with a line break is
/// counted while the format is undetermined.
pub open spec fn newline_counted(st: TtmlParserState, ev: XmlEvent) -> TtmlParserState {
    match ev {
        XmlEvent::Text { raw, .. } => if st.format_detection == FormatDetection::Undetermined && newline_whitespace(raw@)
            && st.whitespace_nodes_with_newline < u32::MAX {
            TtmlParserState { whitespace_nodes_with_newline: (st.whitespace_nodes_with_newline + 1) as u32, ..st }
        } else {
            st
        },
        _ => st,
    }
}

/// One step of the parse of `c`, from `a` to `b`, ending as `end`: the
/// format bookkeeping, the next event the reader gives (see
/// `xml_event_at`), then recovery from an ill-formed spot, the end of the
/// document, a fatal error, or the handler of the event (inside
/// `<metadata>`, inside `<p>`, or elsewhere).
pub open spec fn step_taken(
    c: Seq<char>,
    o: TtmlParsingOptions,
    has_timed: bool,
    a: ParseSnapshot,
    b: ParseSnapshot,
    end: StepEnd,
) -> bool {
    let a1 = format_checked(a.state);
    let h1 = a.history.push(ReadOp::Event);
    match xml_event_at(c, a.history) {
        Err(XmlReadError::IllFormed(_)) => {
            &&& end is Continue
            &&& b.history == h1
            &&& b.raw == a.raw
            &&& recovered(a1, b.state, a.lines, b.lines)
        },
        Err(XmlReadError::Fatal(m)) => end == StepEnd::Failed(ConvertError::Xml(m)),
        Ok(ev) => {
            let a2 = newline_counted(a1, ev);
            if ev is Eof {
                &&& end is Done
                &&& b == ParseSnapshot { state: a2, lines: a.lines, raw: a.raw, warnings: a.warnings, history: h1 }
            } else {
                let res = handler_result(end);
                &&& !(end is Done)
                &&& if a2.in_metadata {
                    metadata_event_done(ev, a2, b.state, a.raw, b.raw, c, h1, b.history, res) && b.lines == a.lines
                } else if a2.body_state.in_p {
                    p_event_done(ev, a2, b.state, a.lines, b.lines, res) && b.raw == a.raw && b.history == h1
                } else {
                    &&& global_event_done(ev, a2, b.state, a.raw, b.raw, a.warnings, b.warnings, has_timed, o, res)
                    &&& b.lines == a.lines
                    &&& b.history == h1
                }
            }
        },
    }
}

/// The state the parse starts from.
pub open spec fn initial_snapshot(a: ParseSnapshot, o: TtmlParsingOptions) -> bool {
    let st = a.state;
    &&& a.lines.len() == 0 && a.raw.len() == 0 && a.warnings.len() == 0 && a.history.len() == 0
    &&& !st.is_line_timing_mode && !st.detected_line_mode
    &&& st.format_detection == FormatDetection::Undetermined
    &&& st.whitespace_nodes_with_newline == 0 && st.total_nodes_processed == 0
    &&& opt_text(st.default_main_lang) == opt_text(o.default_languages.main)
    &&& opt_text(st.default_translation_lang) == opt_text(o.default_languages.translation)
    &&& opt_text(st.default_romanization_lang) == opt_text(o.default_languages.romanization)
    &&& st.text_buffer@.len() == 0 && st.text_processing_buffer@.len() == 0
    &&& !st.in_metadata
    &&& fresh_metadata_state(st.metadata_state)
    &&& fresh_body_state(st.body_state)
    &&& st.agent_store.wf() && st.agent_store@ == Map::<Seq<char>, AgentView>::empty()
    &&& st.agent_counter == 0 && st.agent_name_to_id_map@.len() == 0
}

/// The parsed data `d` of the text `c` whose parse ended at `b`, apart from
/// the warnings.
pub open spec fn parsed_from(d: ParsedSourceData, c: Seq<char>, b: ParseSnapshot) -> bool {
    &&& d.lines@ == b.lines
    &&& d.raw_metadata@ == b.raw
    &&& d.agents == b.state.agent_store
    &&& d.is_line_timed_source == b.state.is_line_timing_mode
    &&& d.source_format == LyricFormat::Ttml
    &&& opt_text(d.raw_ttml_from_input) == Some(c)
    &&& d.detected_formatted_ttml_input == Some(b.state.format_detection == FormatDetection::IsFormatted)
    &&& d.source_filename is None
    &&& d.source_name@.len() == 0
}

/// The warning of a parse that read as many events as its budget allows.
pub open spec fn budget_warning() -> Seq<char> {
    "XML 读取未能到达文档末尾，解析提前结束。"@
}

/// The number of events a parse of a text of `n` bytes reads at most:
/// every event but the end consumes a byte, and an empty element gives two.
pub open spec fn parse_budget(n: nat) -> nat {
    if n <= u64::MAX / 2 - 2 {
        2 * n + 2
    } else {
        u64::MAX as nat
    }
}

/// How a parse that reached `a` after `n` steps ends with `r`: with the
/// budget spent, the parse so far and a warning; with the end of the
/// document, the parse so far; or with the error of a failed step.
pub open spec fn parse_ended(
    c: Seq<char>,
    o: TtmlParsingOptions,
    has_timed: bool,
    budget: nat,
    a: ParseSnapshot,
    n: nat,
    r: Result<ParsedSourceData, ConvertError>,
) -> bool {
    ||| n == budget && (r matches Ok(d) && parsed_from(d, c, a) && texts(d.warnings@) == texts(a.warnings).push(
        budget_warning(),
    ))
    ||| n < budget && exists|b: ParseSnapshot| #[trigger] step_taken(c, o, has_timed, a, b, StepEnd::Done) && (r matches Ok(
        d,
    ) && parsed_from(d, c, b) && d.warnings@ == b.warnings)
    ||| n < budget && (r matches Err(e) && exists|b: ParseSnapshot| #[trigger] step_taken(c, o, has_timed, a, b, StepEnd::Failed(e)))
}

/// `r` is the outcome of parsing the text `c` step by step from the start
/// (see `step_taken`), in `snaps.len() - 1` steps that go on, within the
/// budget, then the end (see `parse_ended`).
pub open spec fn parse_run(
    c: Seq<char>,
    o: TtmlParsingOptions,
    has_timed: bool,
    budget: nat,
    snaps: Seq<ParseSnapshot>,
    r: Result<ParsedSourceData, ConvertError>,
) -> bool {
    &&& snaps.len() >= 1
    &&& initial_snapshot(snaps[0], o)
    &&& snaps.len() - 1 <= budget
    &&& forall|k: int| 0 <= k < snaps.len() - 1 ==> #[trigger] step_taken(c, o, has_timed, snaps[k], snaps[k + 1], StepEnd::Continue)
    &&& parse_ended(c, o, has_timed, budget, snaps.last(), (snaps.len() - 1) as nat, r)
}

/// Whether the read made at `a` fails: a fatal error of the reader, a
/// start tag whose attributes cannot be read, or, inside `<metadata>`, the
/// text of an element that cannot be read.
pub open spec fn read_failed_at(c: Seq<char>, a: ParseSnapshot) -> bool {
    match xml_event_at(c, a.history) {
        Err(XmlReadError::Fatal(_)) => true,
        Err(_) => false,
        Ok(ev) => {
            ||| ev matches XmlEvent::Start { attributes: Err(_), .. }
            ||| a.state.in_metadata && metadata_event_reads(ev, a.state.metadata_state.context) && xml_text_fails(
                c,
                a.history.push(ReadOp::Event),
                ev->Start_name@,
            )
        },
    }
}

/// A parse fails only where a read fails: at the last step of the run.
pub proof fn lemma_parse_fails_on_read(
    c: Seq<char>,
    o: TtmlParsingOptions,
    has_timed: bool,
    budget: nat,
    snaps: Seq<ParseSnapshot>,
    r: Result<ParsedSourceData, ConvertError>,
)
    requires
        parse_run(c, o, has_timed, budget, snaps, r),
        r is Err,
    ensures
        read_failed_at(c, snaps.last()),
{
    let a = snaps.last();
    let e = r->Err_0;
    let b = choose|b: ParseSnapshot| #[trigger] step_taken(c, o, has_timed, a, b, StepEnd::Failed(e));
    assert(step_taken(c, o, has_timed, a, b, StepEnd::Failed(e)));
    let a1 = format_checked(a.state);
    assert(a1.in_metadata == a.state.in_metadata && a1.metadata_state == a.state.metadata_state);
    match xml_event_at(c, a.history) {
        Ok(ev) => {
            let a2 = newline_counted(a1, ev);
            assert(a2.in_metadata == a.state.in_metadata && a2.metadata_state == a.state.metadata_state);
        },
        _ => {},
    }
}

/// Whether a document has timed spans, as far as the text shows: it holds
/// both `<span` and `begin=`.
pub open spec fn has_timed_spans(c: Seq<char>) -> bool {
    contains_text(c, "<span"@) && contains_text(c, "begin="@)
}

/// Parses a TTML lyric document. Lines come in document order, each
/// holding something (a syllable or an annotation); the singers found are
/// returned as a well-formed store; the input is kept as the raw TTML.
/// An unrecoverable XML error is returned as `ConvertError::Xml`; an
/// attribute that cannot be read as `ConvertError::Attribute`.
pub fn parse_ttml(content: &str, options: &TtmlParsingOptions) -> (r: Result<ParsedSourceData, ConvertError>)
    ensures
        exists|snaps: Seq<ParseSnapshot>| #[trigger] parse_run(
            content@,
            *options,
            has_timed_spans(content@),
            parse_budget(content.len() as nat),
            snaps,
            r,
        ),
        r matches Err(e) ==> is_parse_error(e),
        options.force_timing_mode == Some(TtmlTimingMode::Word) ==> (r matches Ok(d) ==> !d.is_line_timed_source),
        r matches Ok(d) ==> {
            &&& lines_have_data(d.lines@)
            &&& d.agents.wf()
            &&& d.source_format == LyricFormat::Ttml
            &&& opt_text(d.raw_ttml_from_input) == Some(content@)
            &&& d.detected_formatted_ttml_input is Some
            &&& d.source_filename is None
            &&& d.source_name@.len() == 0
        },
{
    proof {
        reveal_strlit("<span");
        reveal_strlit("begin=");
    }
    let has_timed_span_tags = contains_str(content, "<span") && contains_str(content, "begin=");
    let ghost ht = has_timed_spans(content@);
    assert(has_timed_span_tags == ht);
    let mut reader = xml_reader(content);
    let mut lines: Vec<LyricLine> = Vec::new();
    let mut raw_metadata: Vec<(String, Vec<String>)> = Vec::new();
    let mut warnings: Vec<String> = Vec::new();
    let mut state = TtmlParserState {
        is_line_timing_mode: false,
        detected_line_mode: false,
        format_detection: FormatDetection::Undetermined,
        whitespace_nodes_with_newline: 0,
        total_nodes_processed: 0,
        default_main_lang: copy_opt(&options.default_languages.main),
        default_translation_lang: copy_opt(&options.default_languages.translation),
        default_romanization_lang: copy_opt(&options.default_languages.romanization),
        text_buffer: String::new(),
        text_processing_buffer: String::new(),
        in_metadata: false,
        metadata_state: MetadataParseState::new(),
        body_state: BodyParseState::new(),
        agent_store: AgentStore::new(),
        agent_counter: 0,
        agent_name_to_id_map: Vec::new(),
    };
    // Every event but the end consumes at least one byte of the input, and
    // an empty element gives two events; this bounds the events to read.
    let byte_len = content.len() as u64;
    let mut budget: u64 = if byte_len <= u64::MAX / 2 - 2 { byte_len * 2 + 2 } else { u64::MAX };
    let ghost c = content@;
    let ghost o = *options;
    let ghost budget0 = parse_budget(content.len() as nat);
    assert(budget == budget0);
    let ghost mut snaps: Seq<ParseSnapshot> = seq![
        ParseSnapshot { state, lines: lines@, raw: raw_metadata@, warnings: warnings@, history: reader.history() },
    ];
    assert(initial_snapshot(snaps[0], o));
    loop
        invariant
            state.wf(),
            lines_have_data(lines@),
            reader.text() == content@,
            c == content@,
            o == *options,
            ht == has_timed_span_tags,
            ht == has_timed_spans(content@),
            budget0 == parse_budget(content.len() as nat),
            options.force_timing_mode == Some(TtmlTimingMode::Word) ==> !state.is_line_timing_mode,
            snaps.len() >= 1,
            initial_snapshot(snaps[0], o),
            forall|k: int| 0 <= k < snaps.len() - 1 ==> #[trigger] step_taken(c, o, ht, snaps[k], snaps[k + 1], StepEnd::Continue),
            snaps.last() == (ParseSnapshot {
                state,
                lines: lines@,
                raw: raw_metadata@,
                warnings: warnings@,
                history: reader.history(),
            }),
            snaps.len() - 1 + budget == budget0,
        decreases budget,
    {
        let ghost a = snaps.last();
        let ghost n = (snaps.len() - 1) as nat;
        if budget == 0 {
            warnings.push(to_owned_string("XML 读取未能到达文档末尾，解析提前结束。"));
            let d = ParsedSourceData {
                lines,
                raw_metadata,
                source_format: LyricFormat::Ttml,
                agents: state.agent_store,
                source_filename: None,
                is_line_timed_source: state.is_line_timing_mode,
                warnings,
                raw_ttml_from_input: Some(to_owned_string(content)),
                detected_formatted_ttml_input: Some(state.format_detection == FormatDetection::IsFormatted),
                source_name: String::new(),
            };
            assert(texts(d.warnings@) =~= texts(a.warnings).push(budget_warning()));
            assert(parse_ended(c, o, ht, budget0, a, n, Ok(d)));
            assert(parse_run(c, o, ht, budget0, snaps, Ok(d)));
            return Ok(d);
        }
        budget = budget - 1;
        if state.format_detection == FormatDetection::Undetermined {
            if state.total_nodes_processed < u32::MAX {
                state.total_nodes_processed = state.total_nodes_processed + 1;
            }
            if state.whitespace_nodes_with_newline > 5 {
                state.format_detection = FormatDetection::IsFormatted;
            } else if state.total_nodes_processed > 5000 {
                state.format_detection = FormatDetection::NotFormatted;
            }
        }
        let ghost a1 = state;
        assert(a1 == format_checked(a.state));
        let ghost h1 = a.history.push(ReadOp::Event);
        let event = match read_xml_event(&mut reader) {
            Ok(event) => event,
            Err(XmlReadError::IllFormed(message)) => {
                let position = error_position(&reader);
                attempt_recovery_from_error(&mut state, position, &mut lines, &mut warnings, message.as_str());
                proof {
                    let b = ParseSnapshot {
                        state,
                        lines: lines@,
                        raw: raw_metadata@,
                        warnings: warnings@,
                        history: reader.history(),
                    };
                    assert(step_taken(c, o, ht, a, b, StepEnd::Continue));
                    snaps = snaps.push(b);
                    assert forall|k: int| 0 <= k < snaps.len() - 1 implies #[trigger] step_taken(
                        c,
                        o,
                        ht,
                        snaps[k],
                        snaps[k + 1],
                        StepEnd::Continue,
                    ) by {
                        if k < snaps.len() - 2 {
                            assert(snaps[k] == snaps.drop_last()[k] && snaps[k + 1] == snaps.drop_last()[k + 1]);
                        }
                    }
                }
                continue;
            },
            Err(XmlReadError::Fatal(message)) => {
                proof {
                    let r0: Result<ParsedSourceData, ConvertError> = Err(ConvertError::Xml(message));
                    assert(step_taken(c, o, ht, a, a, StepEnd::Failed(ConvertError::Xml(message))));
                    assert(parse_ended(c, o, ht, budget0, a, n, r0));
                    assert(parse_run(c, o, ht, budget0, snaps, r0));
                }
                return Err(ConvertError::Xml(message));
            },
        };
        match &event {
            XmlEvent::Text { raw, .. } => {
                if state.format_detection == FormatDetection::Undetermined && is_newline_whitespace(raw.as_str()) {
                    if state.whitespace_nodes_with_newline < u32::MAX {
                        state.whitespace_nodes_with_newline = state.whitespace_nodes_with_newline + 1;
                    }
                }
            },
            XmlEvent::Eof => {
                let d = ParsedSourceData {
                    lines,
                    raw_metadata,
                    source_format: LyricFormat::Ttml,
                    agents: state.agent_store,
                    source_filename: None,
                    is_line_timed_source: state.is_line_timing_mode,
                    warnings,
                    raw_ttml_from_input: Some(to_owned_string(content)),
                    detected_formatted_ttml_input: Some(state.format_detection == FormatDetection::IsFormatted),
                    source_name: String::new(),
                };
                proof {
                    let b = ParseSnapshot { state, lines: a.lines, raw: a.raw, warnings: a.warnings, history: h1 };
                    assert(step_taken(c, o, ht, a, b, StepEnd::Done));
                    assert(parse_ended(c, o, ht, budget0, a, n, Ok(d)));
                    assert(parse_run(c, o, ht, budget0, snaps, Ok(d)));
                }
                return Ok(d);
            },
            _ => {},
        }
        let ghost a2 = state;
        assert(a2 == newline_counted(a1, event));
        let step = if state.in_metadata {
            handle_metadata_event(&event, &mut reader, &mut state, &mut raw_metadata, &mut warnings)
        } else if state.body_state.in_p {
            handle_p_event(&event, &mut state, &mut lines, &mut warnings)
        } else {
            handle_global_event(&event, &mut state, &mut raw_metadata, &mut warnings, has_timed_span_tags, options)
        };
        let ghost b = ParseSnapshot {
            state,
            lines: lines@,
            raw: raw_metadata@,
            warnings: warnings@,
            history: reader.history(),
        };
        match step {
            Ok(()) => {
                proof {
                    assert(step_taken(c, o, ht, a, b, StepEnd::Continue));
                    snaps = snaps.push(b);
                    assert forall|k: int| 0 <= k < snaps.len() - 1 implies #[trigger] step_taken(
                        c,
                        o,
                        ht,
                        snaps[k],
                        snaps[k + 1],
                        StepEnd::Continue,
                    ) by {
                        if k < snaps.len() - 2 {
                            assert(snaps[k] == snaps.drop_last()[k] && snaps[k + 1] == snaps.drop_last()[k + 1]);
                        }
                    }
                }
            },
            Err(e) => {
                proof {
                    let r0: Result<ParsedSourceData, ConvertError> = Err(e);
                    assert(step_taken(c, o, ht, a, b, StepEnd::Failed(e)));
                    assert(parse_ended(c, o, ht, budget0, a, n, r0));
                    assert(parse_run(c, o, ht, budget0, snaps, r0));
                }
                return Err(e);
            },
        }
    }
}

} // verus!
