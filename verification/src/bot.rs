//! The decisions of the lyric submission bot: what a submitted lyric file
//! becomes, what a comment asks for, and who may ask it.

use vstd::prelude::*;

use crate::generator::{generate_ttml, is_ttml_document};
use crate::xml::{node_op, xml_rendering, XmlNode};
use crate::issue_text::{
    checked_mark, opt_str,
    build_untraceable_comment, build_permission_denied_comment, fields_map, issue_number_in, issue_param,
    pair_texts, parse_issue_number_from_pr_body, starts_with, starts_with_str, text_lines,
};
use crate::metadata::{cleaned, loaded, raw_view, strictly_sorted, text_lt, KeyView, MetadataStore};
use crate::parser::{has_timed_spans, parse_budget, parse_run, parse_ttml, ParseSnapshot};
use crate::text::{
    chars_of, decimal, is_whitespace, is_ws, join_strings, join_with, push_char, push_decimal, push_str, str_eq,
    string_from_range, text_is_empty, texts, to_owned_string, trim, trim_string,
};
use crate::types::{opt_text, AgentStore, ConvertError, LyricLine, DefaultLanguageOptions, ParsedSourceData, TtmlGenerationOptions, TtmlParsingOptions, TtmlTimingMode};
use crate::validator::{lyric_line_errors, metadata_errors, validate_lyrics_and_metadata};

verus! {

// ---------------------------------------------------------------------------
// Ordering lines by start time
// ---------------------------------------------------------------------------

/// `x` inserted into `s` before the first line that starts later than it.
pub open spec fn insert_by_start(s: Seq<LyricLine>, x: LyricLine) -> Seq<LyricLine>
    decreases s.len(),
{
    if s.len() == 0 {
        seq![x]
    } else if x.start_ms < s[0].start_ms {
        seq![x] + s
    } else {
        seq![s[0]] + insert_by_start(s.drop_first(), x)
    }
}

/// The lines ordered by start time; lines that start together keep their
/// order (a stable sort).
pub open spec fn sort_by_start(s: Seq<LyricLine>) -> Seq<LyricLine>
    decreases s.len(),
{
    if s.len() == 0 {
        Seq::empty()
    } else {
        insert_by_start(sort_by_start(s.drop_last()), s.last())
    }
}

/// Whether the lines come in order of start time.
pub open spec fn starts_ordered(s: Seq<LyricLine>) -> bool {
    forall|i: int, j: int| 0 <= i <= j < s.len() ==> #[trigger] s[i].start_ms <= #[trigger] s[j].start_ms
}

/// Inserting at the first later start is inserting at `k`.
proof fn lemma_insert_at(s: Seq<LyricLine>, x: LyricLine, k: int)
    requires
        0 <= k <= s.len(),
        forall|j: int| 0 <= j < k ==> #[trigger] s[j].start_ms <= x.start_ms,
        k < s.len() ==> x.start_ms < s[k].start_ms,
    ensures
        insert_by_start(s, x) == s.take(k) + seq![x] + s.skip(k),
    decreases s.len(),
{
    if s.len() == 0 {
        assert(s.take(k) + seq![x] + s.skip(k) =~= seq![x]);
    } else if k == 0 {
        assert(s.take(k) + seq![x] + s.skip(k) =~= seq![x] + s);
    } else {
        let t = s.drop_first();
        assert forall|j: int| 0 <= j < k - 1 implies #[trigger] t[j].start_ms <= x.start_ms by {
            assert(t[j] == s[j + 1]);
        }
        if k - 1 < t.len() {
            assert(t[k - 1] == s[k]);
        }
        lemma_insert_at(t, x, k - 1);
        assert(seq![s[0]] + (t.take(k - 1) + seq![x] + t.skip(k - 1)) =~= s.take(k) + seq![x] + s.skip(k));
    }
}

/// Inserting keeps the order and adds exactly `x`.
#[verifier::spinoff_prover]
pub proof fn lemma_insert_by_start(s: Seq<LyricLine>, x: LyricLine)
    requires
        starts_ordered(s),
    ensures
        starts_ordered(insert_by_start(s, x)),
        insert_by_start(s, x).to_multiset() == s.to_multiset().insert(x),
    decreases s.len(),
{
    broadcast use vstd::seq_lib::group_to_multiset_ensures;
    if s.len() == 0 {
        assert(seq![x] =~= Seq::<LyricLine>::empty().push(x));
    } else if x.start_ms < s[0].start_ms {
        let r = seq![x] + s;
        assert forall|i: int, j: int| 0 <= i <= j < r.len() implies #[trigger] r[i].start_ms <= #[trigger] r[j].start_ms by {
            if i > 0 {
                assert(r[i] == s[i - 1]);
                assert(r[j] == s[j - 1]);
            } else if j > 0 {
                assert(r[j] == s[j - 1]);
                assert(s[0].start_ms <= s[j - 1].start_ms);
            }
        }
        vstd::seq_lib::lemma_multiset_commutative(seq![x], s);
        assert(seq![x].to_multiset() =~= Seq::<LyricLine>::empty().push(x).to_multiset()) by {
            assert(seq![x] =~= Seq::<LyricLine>::empty().push(x));
        }
    } else {
        let t = s.drop_first();
        assert forall|i: int, j: int| 0 <= i <= j < t.len() implies #[trigger] t[i].start_ms <= #[trigger] t[j].start_ms by {
            assert(t[i] == s[i + 1]);
            assert(t[j] == s[j + 1]);
        }
        lemma_insert_by_start(t, x);
        let u = insert_by_start(t, x);
        let r = seq![s[0]] + u;
        assert(r == insert_by_start(s, x));
        assert forall|k: int| 0 <= k < u.len() implies s[0].start_ms <= #[trigger] u[k].start_ms by {
            assert(u.to_multiset().count(u[k]) > 0);
            assert(t.to_multiset().insert(x).count(u[k]) > 0);
            if u[k] != x {
                assert(t.to_multiset().count(u[k]) > 0);
                assert(t.contains(u[k]));
                let m = choose|m: int| 0 <= m < t.len() && t[m] == u[k];
                assert(t[m] == s[m + 1]);
            }
        }
        assert forall|i: int, j: int| 0 <= i <= j < r.len() implies #[trigger] r[i].start_ms <= #[trigger] r[j].start_ms by {
            if i > 0 {
                assert(r[i] == u[i - 1]);
                assert(r[j] == u[j - 1]);
            } else if j > 0 {
                assert(r[j] == u[j - 1]);
            }
        }
        vstd::seq_lib::lemma_multiset_commutative(seq![s[0]], u);
        vstd::seq_lib::lemma_multiset_commutative(seq![s[0]], t);
        assert(seq![s[0]] + t =~= s);
    }
}

/// The stable sort orders the lines and keeps each of them.
pub proof fn lemma_sort_by_start(s: Seq<LyricLine>)
    ensures
        starts_ordered(sort_by_start(s)),
        sort_by_start(s).to_multiset() == s.to_multiset(),
    decreases s.len(),
{
    broadcast use vstd::seq_lib::group_to_multiset_ensures;
    if s.len() > 0 {
        lemma_sort_by_start(s.drop_last());
        lemma_insert_by_start(sort_by_start(s.drop_last()), s.last());
        assert(s.drop_last().push(s.last()) =~= s);
    }
}

/// Orders the lines by start time, keeping the order of lines that start
/// together (see `sort_by_start`).
pub fn sort_lines_by_start(lines: Vec<LyricLine>) -> (r: Vec<LyricLine>)
    ensures
        r@ == sort_by_start(lines@),
        starts_ordered(r@),
{
    proof {
        lemma_sort_by_start(lines@);
    }
    let mut rest = lines;
    let ghost all = rest@;
    let total = rest.len();
    assert(all.len() == total);
    let mut out: Vec<LyricLine> = Vec::new();
    let mut done: usize = 0;
    while rest.len() > 0
        invariant
            done + rest@.len() == all.len(),
            all.len() <= usize::MAX,
            rest@ == all.skip(done as int),
            out@ == sort_by_start(all.take(done as int)),
        decreases rest@.len(),
    {
        let x = rest.remove(0);
        proof {
            lemma_sort_by_start(all.take(done as int));
            assert(x == all[done as int]);
            assert(all.take(done + 1).drop_last() =~= all.take(done as int));
            assert(rest@ =~= all.skip(done + 1));
        }
        let mut k: usize = 0;
        while k < out.len() && out[k].start_ms <= x.start_ms
            invariant
                k <= out@.len(),
                forall|j: int| 0 <= j < k ==> #[trigger] out@[j].start_ms <= x.start_ms,
            decreases out@.len() - k,
        {
            k = k + 1;
        }
        proof {
            lemma_insert_at(out@, x, k as int);
        }
        let ghost before = out@;
        out.insert(k, x);
        assert(out@ =~= before.take(k as int) + seq![x] + before.skip(k as int));
        done = done + 1;
    }
    assert(all.take(all.len() as int) =~= all);
    out
}

// ---------------------------------------------------------------------------
// Processing a submitted lyric file
// ---------------------------------------------------------------------------

/// `r` is the metadata `m` with its values cleaned: each list trimmed, blank
/// values dropped, sorted without duplicates, and keys left empty removed.
pub open spec fn deduplicated(r: Map<KeyView, Seq<Seq<char>>>, m: Map<KeyView, Seq<Seq<char>>>) -> bool {
    &&& forall|k: KeyView| #[trigger] r.contains_key(k) <==> m.contains_key(k) && cleaned(m[k]).len() > 0
    &&& forall|k: KeyView| #[trigger] r.contains_key(k) ==> strictly_sorted(r[k]) && r[k].to_set() == cleaned(
        m[k],
    ).to_set()
}

/// What a filter keeps was in the sequence.
proof fn lemma_filter_in(s: Seq<Seq<char>>, pred: spec_fn(Seq<char>) -> bool, i: int)
    requires
        0 <= i < s.filter(pred).len(),
    ensures
        s.contains(s.filter(pred)[i]),
    decreases s.len(),
{
    reveal(Seq::filter);
    if s.len() > 0 {
        let sub = s.drop_last().filter(pred);
        if i < sub.len() {
            lemma_filter_in(s.drop_last(), pred, i);
            let j = choose|j: int| 0 <= j < s.drop_last().len() && s.drop_last()[j] == sub[i];
            assert(s[j] == sub[i]);
            if pred(s.last()) {
                assert(s.filter(pred) == sub.push(s.last()));
                assert(s.filter(pred)[i] == sub[i]);
            }
        } else {
            assert(pred(s.last()));
            assert(s.filter(pred) == sub.push(s.last()));
            assert(s[s.len() - 1] == s.filter(pred)[i]);
        }
    }
}

/// The cleaned values of a list are trimmed and not empty.
proof fn lemma_cleaned_values(vals: Seq<Seq<char>>, x: Seq<char>)
    requires
        cleaned(vals).contains(x),
    ensures
        trim(x) == x,
        x.len() > 0,
{
    let f = |v: Seq<char>| trim(v);
    let p = |t: Seq<char>| t.len() > 0;
    let mv = vals.map_values(f);
    let i = choose|i: int| 0 <= i < cleaned(vals).len() && cleaned(vals)[i] == x;
    broadcast use vstd::seq_lib::group_filter_ensures;
    assert(p(mv.filter(p)[i]));
    lemma_filter_in(mv, p, i);
    let j = choose|j: int| 0 <= j < mv.len() && mv[j] == x;
    crate::text::lemma_trim_idempotent(vals[j]);
}

/// Cleaning values that are already trimmed and not empty keeps them all.
proof fn lemma_cleaned_clean(vals: Seq<Seq<char>>)
    requires
        forall|i: int| 0 <= i < vals.len() ==> trim(#[trigger] vals[i]) == vals[i] && vals[i].len() > 0,
    ensures
        cleaned(vals).to_set() == vals.to_set(),
{
    let f = |v: Seq<char>| trim(v);
    let p = |t: Seq<char>| t.len() > 0;
    let mv = vals.map_values(f);
    assert(mv =~= vals);
    broadcast use vstd::seq_lib::group_filter_ensures;
    assert forall|x: Seq<char>| cleaned(vals).to_set().contains(x) <==> vals.to_set().contains(x) by {
        if cleaned(vals).contains(x) {
            let i = choose|i: int| 0 <= i < cleaned(vals).len() && cleaned(vals)[i] == x;
            lemma_filter_in(mv, p, i);
        }
        if vals.contains(x) {
            let j = choose|j: int| 0 <= j < vals.len() && vals[j] == x;
            assert(mv[j] == x && p(mv[j]));
        }
    }
    assert(cleaned(vals).to_set() =~= vals.to_set());
}

/// Two strictly sorted lists with the same values are the same list.
proof fn lemma_sorted_unique(a: Seq<Seq<char>>, b: Seq<Seq<char>>)
    requires
        strictly_sorted(a),
        strictly_sorted(b),
        a.to_set() == b.to_set(),
    ensures
        a == b,
    decreases a.len(),
{
    if a.len() == 0 {
        if b.len() > 0 {
            assert(b.to_set().contains(b[0]));
        }
        assert(a =~= b);
    } else {
        assert(a.to_set().contains(a[0]));
        assert(b.contains(a[0]));
        assert(b.len() > 0);
        assert(b.to_set().contains(b[0]));
        let i = choose|i: int| 0 <= i < a.len() && a[i] == b[0];
        let j = choose|j: int| 0 <= j < b.len() && b[j] == a[0];
        if j > 0 {
            assert(text_lt(b[0], b[j]));
            if i > 0 {
                assert(text_lt(a[0], a[i]));
                crate::metadata::lemma_text_lt_trans(a[0], a[i], a[0]);
            }
            crate::metadata::lemma_text_lt_irrefl(a[0]);
        }
        assert(a[0] == b[0]);
        let at = a.drop_first();
        let bt = b.drop_first();
        assert forall|x: Seq<char>| at.to_set().contains(x) <==> bt.to_set().contains(x) by {
            if at.contains(x) {
                let p = choose|p: int| 0 <= p < at.len() && at[p] == x;
                assert(a[p + 1] == x && text_lt(a[0], a[p + 1]));
                assert(a.contains(x));
                assert(a.to_set().contains(x));
                assert(b.to_set().contains(x));
                assert(b.contains(x));
                let q = choose|q: int| 0 <= q < b.len() && b[q] == x;
                if q == 0 {
                    crate::metadata::lemma_text_lt_irrefl(x);
                }
                assert(bt[q - 1] == x);
            }
            if bt.contains(x) {
                let q = choose|q: int| 0 <= q < bt.len() && bt[q] == x;
                assert(b[q + 1] == x && text_lt(b[0], b[q + 1]));
                assert(b.contains(x));
                assert(b.to_set().contains(x));
                assert(a.to_set().contains(x));
                assert(a.contains(x));
                let p = choose|p: int| 0 <= p < a.len() && a[p] == x;
                if p == 0 {
                    crate::metadata::lemma_text_lt_irrefl(x);
                }
                assert(at[p - 1] == x);
            }
        }
        assert(at.to_set() =~= bt.to_set());
        assert(strictly_sorted(at)) by {
            assert forall|p: int, q: int| 0 <= p < q < at.len() implies text_lt(#[trigger] at[p], #[trigger] at[q]) by {
                assert(at[p] == a[p + 1] && at[q] == a[q + 1]);
            }
        }
        assert(strictly_sorted(bt)) by {
            assert forall|p: int, q: int| 0 <= p < q < bt.len() implies text_lt(#[trigger] bt[p], #[trigger] bt[q]) by {
                assert(bt[p] == b[p + 1] && bt[q] == b[q + 1]);
            }
        }
        lemma_sorted_unique(at, bt);
        assert(a =~= seq![a[0]] + at);
        assert(b =~= seq![b[0]] + bt);
    }
}

/// Cleaning the values of metadata twice gives what cleaning once gives.
pub proof fn lemma_deduplicated_twice(
    m0: Map<KeyView, Seq<Seq<char>>>,
    m1: Map<KeyView, Seq<Seq<char>>>,
    m2: Map<KeyView, Seq<Seq<char>>>,
)
    requires
        deduplicated(m1, m0),
        deduplicated(m2, m1),
    ensures
        m2 == m1,
{
    assert forall|k: KeyView| m1.contains_key(k) implies cleaned(m1[k]).to_set() == m1[k].to_set() && cleaned(
        m1[k],
    ).len() > 0 by {
        assert forall|i: int| 0 <= i < m1[k].len() implies trim(#[trigger] m1[k][i]) == m1[k][i] && m1[k][i].len()
            > 0 by {
            assert(m1[k].to_set().contains(m1[k][i]));
            lemma_cleaned_values(m0[k], m1[k][i]);
        }
        lemma_cleaned_clean(m1[k]);
        assert(cleaned(m0[k]).len() > 0);
        assert(cleaned(m0[k]).to_set().contains(cleaned(m0[k])[0]));
        assert(m1[k].to_set().contains(cleaned(m0[k])[0]));
        assert(m1[k].len() > 0);
        assert(cleaned(m1[k]).to_set().contains(m1[k][0]));
    }
    assert forall|k: KeyView| #[trigger] m2.contains_key(k) <==> m1.contains_key(k) by {}
    assert forall|k: KeyView| m2.contains_key(k) implies #[trigger] m2[k] == m1[k] by {
        lemma_sorted_unique(m2[k], m1[k]);
    }
    assert(m2 =~= m1);
}

/// Parsed lyrics made ready for checking: lines in order of start time and
/// the metadata cleaned.
#[derive(Debug)]
pub struct PreparedLyrics {
    /// The lines, ordered by start time.
    pub lines: Vec<LyricLine>,
    /// The metadata of the file.
    pub metadata_store: MetadataStore,
    /// The singers of the file.
    pub agents: AgentStore,
    /// The warnings of reading the file.
    pub warnings: Vec<String>,
}

/// Orders the lines of parsed lyrics by start time (stably) and loads and
/// cleans their metadata.
pub fn prepare_parsed(parsed: ParsedSourceData) -> (r: PreparedLyrics)
    ensures
        r.lines@ == sort_by_start(parsed.lines@),
        r.metadata_store.wf(),
        deduplicated(r.metadata_store@, loaded(Map::empty(), raw_view(parsed.raw_metadata@))),
        r.agents == parsed.agents,
        r.warnings@ == parsed.warnings@,
{
    let ParsedSourceData { lines, raw_metadata, agents, warnings, .. } = parsed;
    let lines = sort_lines_by_start(lines);
    let mut metadata_store = MetadataStore::new();
    metadata_store.load_from_raw(&raw_metadata);
    metadata_store.deduplicate_values();
    PreparedLyrics { lines, metadata_store, agents, warnings }
}

/// The message of a failed check: each problem on a line of its own.
pub open spec fn validation_message(errors: Seq<Seq<char>>) -> Seq<char> {
    "文件验证失败:\n- "@ + join_with(errors, "\n- "@)
}

/// The message of a failed check (see `validation_message`).
pub fn validation_failure_message(errors: &Vec<String>) -> (r: String)
    ensures
        r@ == validation_message(texts(errors@)),
{
    let mut out = to_owned_string("文件验证失败:\n- ");
    let joined = join_strings(errors, "\n- ");
    push_str(&mut out, joined.as_str());
    out
}

/// How Rust's `Debug` writes a string: in double quotes, with escapes.
pub uninterp spec fn debug_quoted(s: Seq<char>) -> Seq<char>;

/// `format!("{:?}", s)` for a string: std's `Debug` for `str`. Claimed:
/// the result is named by `debug_quoted` (a function of the text alone).
#[verifier::external_body]
fn quote_debug(s: &str) -> (r: String)
    ensures
        r@ == debug_quoted(s@),
{
    format!("{s:?}")
}

/// The name of an error's variant.
pub open spec fn error_variant_name(e: ConvertError) -> Seq<char> {
    match e {
        ConvertError::Xml(_) => "Xml"@,
        ConvertError::Attribute(_) => "Attribute"@,
        ConvertError::InvalidTime(_) => "InvalidTime"@,
        ConvertError::Internal(_) => "Internal"@,
        ConvertError::InvalidLyricFormat(_) => "InvalidLyricFormat"@,
        ConvertError::Encoding(_) => "Encoding"@,
        ConvertError::WordBoundaryDetection(_) => "WordBoundaryDetection"@,
        ConvertError::FuriganaParsingError(_) => "FuriganaParsingError"@,
        ConvertError::TrackMergeError(_) => "TrackMergeError"@,
    }
}

/// The debugging form of an error: its variant, then its message quoted in
/// brackets, as in `Xml("...")`.
pub open spec fn error_debug(e: ConvertError) -> Seq<char> {
    error_variant_name(e) + "("@ + debug_quoted(crate::types::error_detail(e)) + ")"@
}

/// The debugging form of an error (see `error_debug`).
pub fn error_debug_text(e: &ConvertError) -> (r: String)
    ensures
        r@ == error_debug(*e),
{
    let (name, msg) = match e {
        ConvertError::Xml(m) => ("Xml", m),
        ConvertError::Attribute(m) => ("Attribute", m),
        ConvertError::InvalidTime(m) => ("InvalidTime", m),
        ConvertError::Internal(m) => ("Internal", m),
        ConvertError::InvalidLyricFormat(m) => ("InvalidLyricFormat", m),
        ConvertError::Encoding(m) => ("Encoding", m),
        ConvertError::WordBoundaryDetection(m) => ("WordBoundaryDetection", m),
        ConvertError::FuriganaParsingError(m) => ("FuriganaParsingError", m),
        ConvertError::TrackMergeError(m) => ("TrackMergeError", m),
    };
    let mut out = to_owned_string(name);
    push_str(&mut out, "(");
    let quoted = quote_debug(msg.as_str());
    push_str(&mut out, quoted.as_str());
    push_str(&mut out, ")");
    out
}

/// The message of a file that cannot be parsed.
pub open spec fn parse_failure_message(e: ConvertError) -> Seq<char> {
    "解析 TTML 文件失败: `"@ + error_debug(e) + "`"@
}

/// The message of a file that cannot be written again.
pub open spec fn generation_failure_message(e: ConvertError) -> Seq<char> {
    "生成 TTML 失败: "@ + error_debug(e)
}

/// A submitted lyric file, checked and made compact.
#[derive(Debug)]
pub struct TtmlProcessingOutput {
    /// The lyric file without indentation.
    pub compact_ttml: String,
    /// Its metadata.
    pub metadata_store: MetadataStore,
    /// The warnings of reading it.
    pub warnings: Vec<String>,
}

/// The options a checked file is written again with: the defaults, without
/// indentation.
pub open spec fn compact_options() -> TtmlGenerationOptions {
    TtmlGenerationOptions {
        timing_mode: TtmlTimingMode::Word,
        main_language: None,
        translation_language: None,
        romanization_language: None,
        use_apple_format_rules: false,
        format: false,
        auto_word_splitting: false,
        punctuation_weight_milli: 300,
    }
}

/// The problems the check finds in prepared lyrics.
pub open spec fn prepared_errors(p: PreparedLyrics) -> Seq<Seq<char>> {
    metadata_errors(p.metadata_store@) + lyric_line_errors(p.lines@)
}

/// `r` is what checking and writing the prepared lyrics `p` gives: the
/// message listing every problem when the check finds some; otherwise the
/// file written again, without indentation, with the metadata and warnings
/// of `p`.
pub open spec fn checked_result(p: PreparedLyrics, r: Result<TtmlProcessingOutput, String>) -> bool {
    if prepared_errors(p).len() > 0 {
        r matches Err(m) && m@ == validation_message(prepared_errors(p))
    } else {
        &&& r matches Ok(out)
        &&& out.metadata_store@ == p.metadata_store@ && out.metadata_store.wf()
        &&& out.warnings@ == p.warnings@
        &&& exists|doc: XmlNode| #[trigger] is_ttml_document(
            doc,
            p.lines@,
            p.metadata_store@,
            p.agents@,
            compact_options(),
        ) && out.compact_ttml@ == xml_rendering(false, seq![node_op(doc)])
    }
}

/// Checks prepared lyrics and writes them again without indentation (see
/// `checked_result`).
pub fn check_and_write(prepared: PreparedLyrics) -> (r: Result<TtmlProcessingOutput, String>)
    requires
        prepared.metadata_store.wf(),
        prepared.agents.wf(),
    ensures
        checked_result(prepared, r),
{
    let ghost p = prepared;
    match validate_lyrics_and_metadata(prepared.lines.as_slice(), &prepared.metadata_store) {
        Ok(()) => {},
        Err(errors) => {
            return Err(validation_failure_message(&errors));
        },
    }
    let mut options = TtmlGenerationOptions::default();
    options.format = false;
    assert(options == compact_options());
    let compact_ttml = match generate_ttml(prepared.lines.as_slice(), &prepared.metadata_store, &prepared.agents, &options) {
        Ok(s) => s,
        Err(e) => {
            let mut msg = to_owned_string("生成 TTML 失败: ");
            let d = error_debug_text(&e);
            push_str(&mut msg, d.as_str());
            assert(msg@ == generation_failure_message(e));
            return Err(msg);
        },
    };
    let PreparedLyrics { metadata_store, warnings, .. } = prepared;
    Ok(TtmlProcessingOutput { compact_ttml, metadata_store, warnings })
}

/// `r` is what processing gives for the outcome `parsed` of parsing: the
/// parse error's message when parsing failed, else the result of checking
/// and writing the prepared lyrics (see `checked_result`).
pub open spec fn processed_result(parsed: Result<ParsedSourceData, ConvertError>, r: Result<TtmlProcessingOutput, String>) -> bool {
    match parsed {
        Err(e) => r matches Err(m) && m@ == parse_failure_message(e),
        Ok(d) => exists|p: PreparedLyrics| #[trigger] prepared_from(d, p) && checked_result(p, r),
    }
}

/// `p` is the parsed lyrics `d` made ready for checking (see
/// `prepare_parsed`).
pub open spec fn prepared_from(d: ParsedSourceData, p: PreparedLyrics) -> bool {
    &&& p.lines@ == sort_by_start(d.lines@)
    &&& p.metadata_store.wf()
    &&& deduplicated(p.metadata_store@, loaded(Map::empty(), raw_view(d.raw_metadata@)))
    &&& p.agents == d.agents
    &&& p.warnings@ == d.warnings@
}

/// Processes the outcome of parsing a submitted file (see
/// `processed_result`).
pub fn process_parsed(parsed: Result<ParsedSourceData, ConvertError>) -> (r: Result<TtmlProcessingOutput, String>)
    requires
        parsed matches Ok(d) ==> d.agents.wf(),
    ensures
        processed_result(parsed, r),
{
    match parsed {
        Ok(data) => {
            let prepared = prepare_parsed(data);
            let ghost p = prepared;
            let r = check_and_write(prepared);
            assert(prepared_from(data, p));
            r
        },
        Err(e) => {
            let mut msg = to_owned_string("解析 TTML 文件失败: `");
            let d = error_debug_text(&e);
            push_str(&mut msg, d.as_str());
            push_str(&mut msg, "`");
            Err(msg)
        },
    }
}

/// Parses a submitted lyric file, orders its lines, cleans its metadata,
/// checks both and writes the file again without indentation. On success
/// the metadata is complete (title, artist, album, a platform id); a
/// failure is explained by a message that says which step failed, and a
/// failed check lists every problem. What comes out is what
/// `process_parsed` gives for the parser's outcome on the file.
pub fn process_ttml_string(original_ttml: &str) -> (r: Result<TtmlProcessingOutput, String>)
    ensures
        match r {
            Ok(out) => out.metadata_store.wf() && metadata_errors(out.metadata_store@).len() == 0,
            Err(msg) => starts_with(msg@, "解析 TTML 文件失败: `"@) || starts_with(msg@, "文件验证失败:\n- "@),
        },
        exists|parsed: Result<ParsedSourceData, ConvertError>| #[trigger] parse_outcome(
            original_ttml@,
            original_ttml.len() as nat,
            parsed,
        ) && processed_result(parsed, r),
{
    let parsing_options = TtmlParsingOptions::default();
    assert(parsing_options == default_parsing_options());
    let parsed = parse_ttml(original_ttml, &parsing_options);
    let ghost pv = parsed;
    assert(parse_outcome(original_ttml@, original_ttml.len() as nat, pv));
    let r = process_parsed(parsed);
    let ghost rv = r;
    proof {
        match pv {
            Err(e) => {
                assert(rv matches Err(m) && m@.take("解析 TTML 文件失败: `"@.len() as int) =~= "解析 TTML 文件失败: `"@);
            },
            Ok(d) => {
                let p = choose|p: PreparedLyrics| #[trigger] prepared_from(d, p) && checked_result(p, rv);
                if prepared_errors(p).len() > 0 {
                    assert(rv matches Err(m) && m@.take("文件验证失败:\n- "@.len() as int) =~= "文件验证失败:\n- "@);
                } else {
                    assert(metadata_errors(rv->Ok_0.metadata_store@) =~= prepared_errors(p).take(
                        metadata_errors(p.metadata_store@).len() as int,
                    ));
                }
            },
        }
    }
    r
}

/// The options a submitted file is parsed with: the defaults.
pub open spec fn default_parsing_options() -> TtmlParsingOptions {
    TtmlParsingOptions {
        default_languages: DefaultLanguageOptions { main: None, translation: None, romanization: None },
        force_timing_mode: None,
    }
}

/// `parsed` is the outcome of parsing the text `content` of `byte_len`
/// bytes with the default options (see `parse_run`).
pub open spec fn parse_outcome(content: Seq<char>, byte_len: nat, parsed: Result<ParsedSourceData, ConvertError>) -> bool {
    &&& exists|snaps: Seq<ParseSnapshot>| #[trigger] parse_run(
        content,
        default_parsing_options(),
        has_timed_spans(content),
        parse_budget(byte_len),
        snaps,
        parsed,
    )
    &&& match parsed {
        Ok(d) => crate::parser::lines_have_data(d.lines@) && d.agents.wf() && opt_text(d.raw_ttml_from_input) == Some(content),
        Err(e) => crate::parser::is_parse_error(e),
    }
}

// ---------------------------------------------------------------------------
// Commands in comments
// ---------------------------------------------------------------------------

/// The position of the first whitespace character of `s`.
pub open spec fn first_ws(s: Seq<char>) -> Option<int>
    decreases s.len(),
{
    if s.len() == 0 {
        None
    } else if is_ws(s[0]) {
        Some(0)
    } else {
        match first_ws(s.drop_first()) {
            Some(k) => Some(k + 1),
            None => None,
        }
    }
}

/// The first whitespace character is the first of the ones found.
proof fn lemma_first_ws(s: Seq<char>, k: int)
    requires
        0 <= k <= s.len(),
        forall|j: int| 0 <= j < k ==> !is_ws(#[trigger] s[j]),
    ensures
        k < s.len() && is_ws(s[k]) ==> first_ws(s) == Some(k),
        k == s.len() ==> first_ws(s) is None,
    decreases k,
{
    if k > 0 {
        let t = s.drop_first();
        assert forall|j: int| 0 <= j < k - 1 implies !is_ws(#[trigger] t[j]) by {
            assert(t[j] == s[j + 1]);
        }
        if k < s.len() {
            assert(t[k - 1] == s[k]);
        }
        lemma_first_ws(t, k - 1);
    }
}

/// A command given in a comment on a pull request.
#[derive(Debug)]
pub enum BotCommand {
    /// `/close [reason]`: close the pull request.
    Close { reason: Option<String> },
    /// `/label labels`: add labels, separated by whitespace.
    Label { labels: String },
    /// `/update url [remarks]`: replace the lyric file with the one at `url`.
    Update { url: String, remarks: Option<String> },
    /// Anything else, and `/update` without a link.
    Ignore,
}

/// The command in a comment: the trimmed comment starts with `/close`,
/// `/label` or `/update`, and the rest, trimmed, is its argument (a reason
/// only when not empty); `/update` takes a link up to the first whitespace
/// and, after it, remarks, trimmed.
pub open spec fn command_matches(body: Seq<char>, c: BotCommand) -> bool {
    let b = trim(body);
    if starts_with(b, "/close"@) {
        let rest = trim(b.skip(6));
        c matches BotCommand::Close { reason } && match reason {
            Some(r) => rest.len() > 0 && r@ == rest,
            None => rest.len() == 0,
        }
    } else if starts_with(b, "/label"@) {
        c matches BotCommand::Label { labels } && labels@ == trim(b.skip(6))
    } else if starts_with(b, "/update"@) {
        let args = trim(b.skip(7));
        if args.len() == 0 {
            c is Ignore
        } else {
            c matches BotCommand::Update { url, remarks } && match first_ws(args) {
                Some(k) => url@ == args.take(k) && (remarks matches Some(rm) && rm@ == trim(args.skip(k + 1))),
                None => url@ == args && remarks is None,
            }
        }
    } else {
        c is Ignore
    }
}

/// The text after the first `n` characters, trimmed.
fn trimmed_rest(v: &Vec<char>, n: usize) -> (r: String)
    requires
        n <= v@.len(),
    ensures
        r@ == trim(v@.skip(n as int)),
{
    let rest = string_from_range(v, n, v.len());
    assert(rest@ =~= v@.skip(n as int));
    trim_string(rest.as_str())
}

/// The command in a comment on a pull request (see `command_matches`).
pub fn parse_command(comment_body: &str) -> (r: BotCommand)
    ensures
        command_matches(comment_body@, r),
{
    proof {
        reveal_strlit("/close");
        reveal_strlit("/label");
        reveal_strlit("/update");
    }
    let body = trim_string(comment_body);
    let v = chars_of(body.as_str());
    if starts_with_str(&v, "/close") {
        let rest = trimmed_rest(&v, 6);
        if text_is_empty(rest.as_str()) {
            BotCommand::Close { reason: None }
        } else {
            BotCommand::Close { reason: Some(rest) }
        }
    } else if starts_with_str(&v, "/label") {
        BotCommand::Label { labels: trimmed_rest(&v, 6) }
    } else if starts_with_str(&v, "/update") {
        let args = trimmed_rest(&v, 7);
        let a = chars_of(args.as_str());
        if a.len() == 0 {
            return BotCommand::Ignore;
        }
        let mut k: usize = 0;
        while k < a.len() && !is_whitespace(a[k])
            invariant
                k <= a@.len(),
                forall|j: int| 0 <= j < k ==> !is_ws(#[trigger] a@[j]),
            decreases a@.len() - k,
        {
            k = k + 1;
        }
        proof {
            lemma_first_ws(a@, k as int);
        }
        if k < a.len() {
            let url = string_from_range(&a, 0, k);
            assert(url@ =~= a@.take(k as int));
            BotCommand::Update { url, remarks: Some(trimmed_rest(&a, k + 1)) }
        } else {
            BotCommand::Update { url: args, remarks: None }
        }
    } else {
        BotCommand::Ignore
    }
}

/// The words of a text after reading it: the finished words and the word in progress.
pub open spec fn words_state(s: Seq<char>) -> (Seq<Seq<char>>, Seq<char>)
    decreases s.len(),
{
    if s.len() == 0 {
        (Seq::empty(), Seq::empty())
    } else {
        let (done, cur) = words_state(s.drop_last());
        if is_ws(s.last()) {
            if cur.len() > 0 {
                (done.push(cur), Seq::empty())
            } else {
                (done, cur)
            }
        } else {
            (done, cur.push(s.last()))
        }
    }
}

/// The words of a text, as `str::split_whitespace` yields them.
pub open spec fn split_words(s: Seq<char>) -> Seq<Seq<char>> {
    let (done, cur) = words_state(s);
    if cur.len() > 0 {
        done.push(cur)
    } else {
        done
    }
}

/// The labels of a `/label` command: its words (see `split_words`).
pub fn split_labels(labels_str: &str) -> (r: Vec<String>)
    ensures
        texts(r@) == split_words(labels_str@),
{
    let v = chars_of(labels_str);
    let mut words: Vec<String> = Vec::new();
    let mut start: usize = 0;
    let mut i: usize = 0;
    while i < v.len()
        invariant
            v@ == labels_str@,
            start <= i <= v@.len(),
            texts(words@) == words_state(labels_str@.take(i as int)).0,
            v@.subrange(start as int, i as int) == words_state(labels_str@.take(i as int)).1,
        decreases v@.len() - i,
    {
        assert(labels_str@.take(i + 1).drop_last() =~= labels_str@.take(i as int));
        if is_whitespace(v[i]) {
            if start < i {
                let w = string_from_range(&v, start, i);
                let ghost before = texts(words@);
                words.push(w);
                assert(texts(words@) =~= before.push(w@));
            }
            start = i + 1;
            assert(v@.subrange(start as int, i + 1) =~= Seq::<char>::empty());
        } else {
            assert(v@.subrange(start as int, i + 1) =~= v@.subrange(start as int, i as int).push(v@[i as int]));
        }
        i = i + 1;
    }
    assert(labels_str@.take(v@.len() as int) =~= labels_str@);
    if start < v.len() {
        let ghost before = texts(words@);
        let w = string_from_range(&v, start, v.len());
        words.push(w);
        assert(texts(words@) =~= before.push(v@.subrange(start as int, v@.len() as int)));
    }
    words
}

// ---------------------------------------------------------------------------
// Submissions
// ---------------------------------------------------------------------------

/// The name of the form field that links the lyric file.
pub open spec fn link_field() -> Seq<char> {
    "TTML 歌词文件下载直链"@
}

/// The reason given when a submission links no lyric file.
pub open spec fn missing_link_reason() -> Seq<char> {
    "无法在 Issue 中找到有效的“TTML 歌词文件下载直链”。"@
}

/// The link and the remarks of a submission form: the link must be there
/// and not empty; the remarks default to empty.
pub fn submission_request(params: &Vec<(String, String)>) -> (r: Result<(String, String), String>)
    ensures
        ({
            let f = fields_map(pair_texts(params@));
            match r {
                Ok((url, remarks)) => f.contains_key(link_field()) && f[link_field()].len() > 0 && url@ == f[link_field()]
                    && remarks@ == if f.contains_key("备注"@) {
                    f["备注"@]
                } else {
                    Seq::empty()
                },
                Err(reason) => !(f.contains_key(link_field()) && f[link_field()].len() > 0) && reason@
                    == missing_link_reason(),
            }
        }),
{
    let url = match issue_param(params, "TTML 歌词文件下载直链") {
        Some(u) => {
            if text_is_empty(u.as_str()) {
                return Err(to_owned_string("无法在 Issue 中找到有效的“TTML 歌词文件下载直链”。"));
            }
            u.clone()
        },
        None => {
            return Err(to_owned_string("无法在 Issue 中找到有效的“TTML 歌词文件下载直链”。"));
        },
    };
    let remarks = match issue_param(params, "备注") {
        Some(r) => r.clone(),
        None => String::new(),
    };
    Ok((url, remarks))
}

/// The branch of the pull request for an issue.
pub fn submission_branch_name(issue_number: u64) -> (r: String)
    ensures
        r@ == "auto-submit-issue-"@ + decimal(issue_number as nat),
{
    let mut out = to_owned_string("auto-submit-issue-");
    push_decimal(&mut out, issue_number);
    out
}

/// The search for open pull requests on the branch of an issue.
pub fn open_pr_query(owner: &str, repo: &str, issue_number: u64) -> (r: String)
    ensures
        r@ == "repo:"@ + owner@ + "/"@ + repo@ + " is:pr is:open head:"@ + "auto-submit-issue-"@ + decimal(
            issue_number as nat,
        ),
{
    let mut out = to_owned_string("repo:");
    push_str(&mut out, owner);
    push_str(&mut out, "/");
    push_str(&mut out, repo);
    push_str(&mut out, " is:pr is:open head:");
    let branch = submission_branch_name(issue_number);
    push_str(&mut out, branch.as_str());
    out
}

/// A signed number in decimal.
pub open spec fn signed_decimal(n: int) -> Seq<char> {
    if n < 0 {
        seq!['-'] + decimal((-n) as nat)
    } else {
        decimal(n as nat)
    }
}

/// The name of the file a submission is stored in: the time in
/// milliseconds, the author's id and a random tag.
pub fn submission_file_name(timestamp_ms: i64, user_id: u64, unique_id: &str) -> (r: String)
    ensures
        r@ == signed_decimal(timestamp_ms as int) + "-"@ + decimal(user_id as nat) + "-"@ + unique_id@ + ".ttml"@,
{
    let mut out = String::new();
    if timestamp_ms < 0 {
        push_char(&mut out, '-');
        let magnitude: u64 = (0i128 - (timestamp_ms as i128)) as u64;
        push_decimal(&mut out, magnitude);
    } else {
        push_decimal(&mut out, timestamp_ms as u64);
    }
    assert(out@ =~= signed_decimal(timestamp_ms as int));
    push_str(&mut out, "-");
    push_decimal(&mut out, user_id);
    push_str(&mut out, "-");
    push_str(&mut out, unique_id);
    push_str(&mut out, ".ttml");
    out
}

/// The commit message of a submission.
pub fn submission_commit_message(file_name: &str, issue_number: u64) -> (r: String)
    ensures
        r@ == "提交歌曲歌词 "@ + file_name@ + " #"@ + decimal(issue_number as nat),
{
    let mut out = to_owned_string("提交歌曲歌词 ");
    push_str(&mut out, file_name);
    push_str(&mut out, " #");
    push_decimal(&mut out, issue_number);
    out
}

/// Whether the author of a submission has contributed before: listed in the
/// contributors' ids, or the list could not be read (then no one is taken
/// for a newcomer).
pub fn is_contributor(contributor_ids: Option<&Vec<String>>, user_id: u64) -> (r: bool)
    ensures
        contributor_ids is None ==> r,
        contributor_ids matches Some(ids) ==> (r <==> exists|i: int|
            0 <= i < ids@.len() && #[trigger] ids@[i]@ == decimal(user_id as nat)),
{
    match contributor_ids {
        None => true,
        Some(ids) => listed(ids, user_id),
    }
}

/// Whether `user_id`, in decimal, is one of `ids`.
fn listed(ids: &Vec<String>, user_id: u64) -> (r: bool)
    ensures
        r <==> exists|i: int| 0 <= i < ids@.len() && #[trigger] ids@[i]@ == decimal(user_id as nat),
{
    let target = crate::text::u64_to_string(user_id);
    let mut i: usize = 0;
    while i < ids.len()
        invariant
            i <= ids@.len(),
            target@ == decimal(user_id as nat),
            forall|j: int| 0 <= j < i ==> #[trigger] ids@[j]@ != decimal(user_id as nat),
        decreases ids@.len() - i,
    {
        if str_eq(ids[i].as_str(), target.as_str()) {
            assert(ids@[i as int]@ == decimal(user_id as nat));
            return true;
        }
        i = i + 1;
    }
    false
}

// ---------------------------------------------------------------------------
// Who may operate a pull request
// ---------------------------------------------------------------------------

/// The first step of checking who may operate a pull request.
#[derive(Debug)]
pub enum PermissionStep {
    /// A collaborator may.
    Granted,
    /// Only the author of this issue may: look the author up.
    CheckAuthor(u64),
    /// No one but a collaborator may; the comment explains why.
    Denied(String),
}

/// A collaborator may operate any pull request; anyone else only one whose
/// body names a submission issue (see `issue_number_in`), whose author
/// must then be the requester.
pub fn permission_first_step(is_collaborator: bool, pr_body: Option<&str>, requester: &str) -> (r: PermissionStep)
    ensures
        is_collaborator ==> r is Granted,
        !is_collaborator ==> match pr_body {
            Some(b) => match issue_number_in(text_lines(b@)) {
                Some(n) => r matches PermissionStep::CheckAuthor(m) && m == n,
                None => r matches PermissionStep::Denied(c) && c@ == "@"@ + requester@
                    + "，操作失败。\n无法从此 PR 追溯到原始的歌词提交议题，因此无法验证你的权限。"@,
            },
            None => r matches PermissionStep::Denied(c) && c@ == "@"@ + requester@
                + "，操作失败。\n无法从此 PR 追溯到原始的歌词提交议题，因此无法验证你的权限。"@,
        },
{
    if is_collaborator {
        return PermissionStep::Granted;
    }
    match parse_issue_number_from_pr_body(pr_body) {
        Some(n) => PermissionStep::CheckAuthor(n),
        None => PermissionStep::Denied(build_untraceable_comment(requester)),
    }
}

/// The second step: the requester may operate the pull request only if it
/// is the author of the issue; otherwise the comment explains why not.
pub fn permission_with_author(requester: &str, original_author: &str) -> (r: Option<String>)
    ensures
        requester@ == original_author@ ==> r is None,
        requester@ != original_author@ ==> (r matches Some(c) && c@ == "@"@ + requester@
            + "，你没有权限执行此操作。\n只有这个歌词提交的原始作者 (@"@ + original_author@ + ") 或仓库协作者才能操作此 PR。"@),
{
    if str_eq(requester, original_author) {
        None
    } else {
        Some(build_permission_denied_comment(requester, original_author))
    }
}

// ---------------------------------------------------------------------------
// The lyric file of a pull request
// ---------------------------------------------------------------------------

/// Whether an extension is `ttml`, ignoring ASCII case.
pub open spec fn is_ttml_extension(e: Seq<char>) -> bool {
    &&& e.len() == 4
    &&& (e[0] == 't' || e[0] == 'T')
    &&& (e[1] == 't' || e[1] == 'T')
    &&& (e[2] == 'm' || e[2] == 'M')
    &&& (e[3] == 'l' || e[3] == 'L')
}

/// Whether a changed file with extension `ext` is a submitted lyric file:
/// a `.ttml` file (in any ASCII case) under `raw-lyrics/`.
pub open spec fn is_lyric_path(name: Seq<char>, ext: Option<Seq<char>>) -> bool {
    ext matches Some(e) && is_ttml_extension(e) && starts_with(name, "raw-lyrics/"@)
}

/// Whether an extension is `ttml` (see `is_ttml_extension`).
fn ttml_extension(e: &str) -> (r: bool)
    ensures
        r == is_ttml_extension(e@),
{
    let v = chars_of(e);
    v.len() == 4 && (v[0] == 't' || v[0] == 'T') && (v[1] == 't' || v[1] == 'T') && (v[2] == 'm' || v[2] == 'M')
        && (v[3] == 'l' || v[3] == 'L')
}

/// The first changed file that is a lyric file (see `is_lyric_path`), given
/// the extension of each file.
pub fn lyric_file_index(filenames: &Vec<String>, extensions: &Vec<Option<String>>) -> (r: Option<usize>)
    requires
        filenames@.len() == extensions@.len(),
    ensures
        match r {
            Some(i) => i < filenames@.len() && is_lyric_path(filenames@[i as int]@, opt_text(extensions@[i as int]))
                && forall|j: int| 0 <= j < i ==> !is_lyric_path(#[trigger] filenames@[j]@, opt_text(extensions@[j])),
            None => forall|j: int|
                0 <= j < filenames@.len() ==> !is_lyric_path(#[trigger] filenames@[j]@, opt_text(extensions@[j])),
        },
{
    proof {
        reveal_strlit("raw-lyrics/");
    }
    let mut i: usize = 0;
    while i < filenames.len()
        invariant
            i <= filenames@.len(),
            filenames@.len() == extensions@.len(),
            forall|j: int| 0 <= j < i ==> !is_lyric_path(#[trigger] filenames@[j]@, opt_text(extensions@[j])),
        decreases filenames@.len() - i,
    {
        let found = match &extensions[i] {
            Some(e) => ttml_extension(e.as_str()) && starts_with_str(&chars_of(filenames[i].as_str()), "raw-lyrics/"),
            None => false,
        };
        if found {
            return Some(i);
        }
        i = i + 1;
    }
    None
}

/// The extension of a path, as `std::path::Path::extension` finds it.
/// Nothing is claimed of it: it follows the path rules of the platform.
#[verifier::external_body]
fn file_extension(path: &str) -> (r: Option<String>) {
    match std::path::Path::new(path).extension() {
        Some(e) => Some(e.to_string_lossy().into_owned()),
        None => None,
    }
}

/// The first changed file that is a submitted lyric file: a `.ttml` file
/// (extension in any ASCII case) under `raw-lyrics/`.
pub fn find_lyric_file(filenames: &Vec<String>) -> (r: Option<usize>)
    ensures
        r matches Some(i) ==> i < filenames@.len() && starts_with(filenames@[i as int]@, "raw-lyrics/"@),
{
    let mut extensions: Vec<Option<String>> = Vec::new();
    let mut i: usize = 0;
    while i < filenames.len()
        invariant
            i <= filenames@.len(),
            extensions@.len() == i,
        decreases filenames@.len() - i,
    {
        extensions.push(file_extension(filenames[i].as_str()));
        i = i + 1;
    }
    lyric_file_index(filenames, &extensions)
}

// ---------------------------------------------------------------------------
// Earlier answers
// ---------------------------------------------------------------------------

/// The id of the GitHub account the bot answers with.
pub open spec fn bot_account_id() -> u64 {
    39523898
}

/// Whether a comment is the bot's own check of an issue: it carries the
/// check marker and comes from a bot account or from the bot's own id.
pub open spec fn is_check_comment(body: Option<Seq<char>>, user_type: Seq<char>, user_id: u64) -> bool {
    &&& body matches Some(b) && crate::parser::contains_text(b, checked_mark())
    &&& (user_type == "Bot"@ || user_id == bot_account_id())
}

/// Whether a comment is the bot's own check of an issue (see
/// `is_check_comment`); an issue with one is not checked again.
pub fn is_bot_check_comment(body: Option<&str>, user_type: &str, user_id: u64) -> (r: bool)
    ensures
        r == is_check_comment(opt_str(body), user_type@, user_id),
{
    let marked = match body {
        Some(b) => crate::parser::contains_str(b, "<!-- AMLL-DB-BOT-CHECKED -->"),
        None => false,
    };
    marked && (str_eq(user_type, "Bot") || user_id == 39523898)
}

} // verus!
