//! The TTML lyric writer: the document is built as a tree of XML nodes,
//! then written by the XML writer. It is meant for the TTML lyrics of Apple
//! Music and AMLL, not for TTML subtitles in general.

use vstd::prelude::*;

use crate::metadata::{text_less, text_lt, CanonicalMetadataKey, KeyView, MetadataStore};
use crate::parser::max64;
use crate::text::{
    all_ws, chars_of, is_blank, join_with, normalize_text_whitespace, normalize_ws, push_char, push_decimal, push_str,
    str_eq, texts,
    to_owned_string, trim, trim_string,
};
use crate::time::{format_time_spec, format_ttml_time};
use crate::tokenize::{auto_tokenize, char_type, get_char_type, tokens_of, CharType};
use crate::types::{
    opt_text, Agent, AgentStore, AgentType, AgentView, AnnotatedTrack, ContentType, ConvertError, LyricLine, LyricSyllable,
    LyricTrack, TrackMetadataKey, TtmlGenerationOptions, TtmlTimingMode,
};
use crate::xml::{compact_writer, indented_writer, node_op, write_document, written_text, xml_rendering, XmlContent, XmlNode};

verus! {

// ---------------------------------------------------------------------------
// Nodes
// ---------------------------------------------------------------------------

/// `n` is the element `name` with the attributes `attrs` (names and values)
/// and text content `text`.
pub open spec fn is_text_element(n: XmlNode, name: Seq<char>, attrs: Seq<(Seq<char>, Seq<char>)>, text: Seq<char>) -> bool {
    n matches XmlNode::Element { name: nm, attrs: at, attr_lines, content: XmlContent::Text(t) } && nm@ == name
        && !attr_lines && at@.len() == attrs.len() && (forall|i: int|
        0 <= i < attrs.len() ==> #[trigger] at@[i].0@ == attrs[i].0 && at@[i].1@ == attrs[i].1) && t@ == text
}

/// `n` is the span `text` timed `begin..end`.
pub open spec fn is_span(n: XmlNode, begin: nat, end: nat, text: Seq<char>) -> bool {
    is_text_element(n, "span"@, seq![("begin"@, format_time_spec(begin)), ("end"@, format_time_spec(end))], text)
}

/// An attribute.
fn attr(name: &str, value: String) -> (r: (String, String))
    ensures
        r.0@ == name@,
        r.1@ == value@,
{
    (to_owned_string(name), value)
}

/// The span `text` timed `begin..end`.
pub fn span_node(begin: u64, end: u64, text: String) -> (r: XmlNode)
    ensures
        is_span(r, begin as nat, end as nat, text@),
{
    let mut attrs: Vec<(String, String)> = Vec::new();
    attrs.push(attr("begin", format_ttml_time(begin)));
    attrs.push(attr("end", format_ttml_time(end)));
    let ghost t = text@;
    let r = XmlNode::Element { name: to_owned_string("span"), attrs, attr_lines: false, content: XmlContent::Text(text) };
    proof {
        reveal_strlit("begin");
        reveal_strlit("end");
        reveal_strlit("span");
    }
    r
}

/// The element `name` with the given attributes and children.
fn element(name: &str, attrs: Vec<(String, String)>, children: Vec<XmlNode>) -> (r: XmlNode)
    ensures
        r matches XmlNode::Element { name: n, attrs: a, attr_lines, content: XmlContent::Children(c) } && n@ == name@
            && a == attrs && !attr_lines && c == children,
{
    XmlNode::Element { name: to_owned_string(name), attrs, attr_lines: false, content: XmlContent::Children(children) }
}

/// The empty element `name` with the given attributes.
fn empty_element(name: &str, attrs: Vec<(String, String)>) -> (r: XmlNode)
    ensures
        r matches XmlNode::Element { name: n, attrs: a, attr_lines, content: XmlContent::Empty } && n@ == name@
            && a == attrs && !attr_lines,
{
    XmlNode::Element { name: to_owned_string(name), attrs, attr_lines: false, content: XmlContent::Empty }
}

/// The element `name` with the given attributes and text.
fn text_element(name: &str, attrs: Vec<(String, String)>, text: String) -> (r: XmlNode)
    ensures
        r matches XmlNode::Element { name: n, attrs: a, attr_lines, content: XmlContent::Text(t) } && n@ == name@
            && a == attrs && !attr_lines && t == text,
{
    XmlNode::Element { name: to_owned_string(name), attrs, attr_lines: false, content: XmlContent::Text(text) }
}

/// `"L{n}"`.
fn line_key(n: u64) -> (r: String)
    ensures
        r@ == "L"@ + crate::text::decimal(n as nat),
{
    let mut s = to_owned_string("L");
    push_decimal(&mut s, n);
    s
}

// ---------------------------------------------------------------------------
// Syllables
// ---------------------------------------------------------------------------

/// The text of a syllable's span: with a trailing space in indented output
/// when the syllable is followed by one.
pub open spec fn span_text(s: LyricSyllable, format: bool) -> Seq<char> {
    if format && s.ends_with_space {
        s.text@ + " "@
    } else {
        s.text@
    }
}

/// The span of one syllable, ending no earlier than it starts.
pub fn write_single_syllable_span(syl: &LyricSyllable, options: &TtmlGenerationOptions) -> (r: XmlNode)
    ensures
        is_span(r, syl.start_ms as nat, max64(syl.end_ms, syl.start_ms) as nat, span_text(*syl, options.format)),
{
    proof {
        reveal_strlit(" ");
    }
    let mut text = to_owned_string(syl.text.as_str());
    if options.format && syl.ends_with_space {
        push_char(&mut text, ' ');
    }
    assert(text@ =~= span_text(*syl, options.format));
    let end = if syl.end_ms >= syl.start_ms { syl.end_ms } else { syl.start_ms };
    span_node(syl.start_ms, end, text)
}

/// The kind of a token: that of its first character.
pub open spec fn token_kind(t: Seq<char>) -> CharType {
    char_type(
        if t.len() > 0 {
            t[0]
        } else {
            ' '
        },
    )
}

/// The weight of a token, in thousandths of a letter: a thousand per
/// character for letters, digits and CJK (a million characters when the
/// count does not fit in 32 bits), the punctuation weight for other text,
/// nothing for whitespace.
pub open spec fn token_weight_of(t: Seq<char>, punct: u32) -> int {
    match token_kind(t) {
        CharType::Latin | CharType::Numeric | CharType::Cjk => 1000 * if t.len() <= u32::MAX {
            t.len() as int
        } else {
            1_000_000int
        },
        CharType::Other => punct as int,
        CharType::Whitespace => 0,
    }
}

/// The weights of the tokens, summed.
pub open spec fn weights_sum(ts: Seq<Seq<char>>, punct: u32) -> int
    decreases ts.len(),
{
    if ts.len() == 0 {
        0
    } else {
        weights_sum(ts.drop_last(), punct) + token_weight_of(ts.last(), punct)
    }
}

/// The position of the last token that is not whitespace.
pub open spec fn last_visible(ts: Seq<Seq<char>>) -> Option<int>
    decreases ts.len(),
{
    if ts.len() == 0 {
        None
    } else if token_kind(ts.last()) != CharType::Whitespace {
        Some(ts.len() - 1)
    } else {
        last_visible(ts.drop_last())
    }
}

/// The duration the tokens of a syllable share: the syllable's (none when it
/// ends before it starts), or two billion milliseconds when that does not
/// fit in 32 bits.
pub open spec fn split_duration(syl: LyricSyllable) -> int {
    let d = if syl.end_ms >= syl.start_ms {
        syl.end_ms - syl.start_ms
    } else {
        0
    };
    if d <= u32::MAX {
        d
    } else {
        2_000_000_000
    }
}

/// Where a token ends, from the start of its syllable: the share `acc` of
/// the weight `total` of the duration `dur`, rounded half up, at most a
/// billion milliseconds (a billion when the product does not fit in 128
/// bits).
pub open spec fn token_offset(acc: int, dur: int, total: int) -> int {
    let num = acc * dur * 2 + total;
    let off = if num <= u128::MAX {
        num / (2 * total)
    } else {
        1_000_000_000
    };
    if off <= 1_000_000_000 {
        off
    } else {
        1_000_000_000
    }
}

/// Where the span of the `n`-th token (counting from one) of the syllable
/// `syl` ends: with the syllable for the last visible token, else at the
/// syllable's start plus the token's offset (see `token_offset`, over the
/// weights of the first `n` tokens), at most the largest time.
pub open spec fn split_end(syl: LyricSyllable, ts: Seq<Seq<char>>, n: int, punct: u32) -> nat {
    let sum = syl.start_ms + token_offset(weights_sum(ts.take(n), punct), split_duration(syl), weights_sum(ts, punct));
    if last_visible(ts) == Some(n - 1) {
        syl.end_ms as nat
    } else if sum <= u64::MAX {
        sum as nat
    } else {
        u64::MAX as nat
    }
}

/// The text of the span of the `n`-th token: the token, followed by a space
/// when it is the last visible one, formatting is asked for and the
/// syllable is followed by a space.
pub open spec fn split_text(syl: LyricSyllable, ts: Seq<Seq<char>>, n: int, fmt: bool) -> Seq<char> {
    if fmt && syl.ends_with_space && last_visible(ts) == Some(n - 1) {
        ts[n - 1].push(' ')
    } else {
        ts[n - 1]
    }
}

/// Where the next span starts after the spans `prev`: at the end of the
/// last one, or at the syllable's start.
pub open spec fn next_start(prev: Seq<(nat, nat, Seq<char>)>, syl: LyricSyllable) -> nat {
    if prev.len() == 0 {
        syl.start_ms as nat
    } else {
        prev.last().1
    }
}

/// The spans of the first `n` tokens `ts` of the syllable `syl`: one per
/// token that is not whitespace, from where the previous one ends (see
/// `next_start`) to `split_end`, with the text `split_text`.
#[verifier::opaque]
pub open spec fn split_spans(syl: LyricSyllable, ts: Seq<Seq<char>>, n: int, punct: u32, fmt: bool) -> Seq<
    (nat, nat, Seq<char>),
>
    decreases n,
{
    if n <= 0 || n > ts.len() {
        Seq::empty()
    } else {
        let prev = split_spans(syl, ts, n - 1, punct, fmt);
        if token_kind(ts[n - 1]) == CharType::Whitespace {
            prev
        } else {
            prev.push((next_start(prev, syl), split_end(syl, ts, n, punct), split_text(syl, ts, n, fmt)))
        }
    }
}

/// One more token of `split_spans`.
proof fn lemma_split_step(syl: LyricSyllable, ts: Seq<Seq<char>>, n: int, punct: u32, fmt: bool)
    requires
        0 < n <= ts.len(),
    ensures
        split_spans(syl, ts, n, punct, fmt) == if token_kind(ts[n - 1]) == CharType::Whitespace {
            split_spans(syl, ts, n - 1, punct, fmt)
        } else {
            split_spans(syl, ts, n - 1, punct, fmt).push(
                (
                    next_start(split_spans(syl, ts, n - 1, punct, fmt), syl),
                    split_end(syl, ts, n, punct),
                    split_text(syl, ts, n, fmt),
                ),
            )
        },
{
    reveal(split_spans);
}

/// No token, no span.
proof fn lemma_split_empty(syl: LyricSyllable, ts: Seq<Seq<char>>, punct: u32, fmt: bool)
    ensures
        split_spans(syl, ts, 0, punct, fmt).len() == 0,
{
    reveal(split_spans);
}

/// The weight of a token (see `token_weight_of`).
fn token_weight(token: &str, punctuation_weight_milli: u32) -> (r: u128)
    ensures
        r == token_weight_of(token@, punctuation_weight_milli),
        r <= 4_294_967_295_000,
{
    let v = chars_of(token);
    let first = if v.len() > 0 { v[0] } else { ' ' };
    match get_char_type(first) {
        CharType::Latin | CharType::Numeric | CharType::Cjk => {
            let count: u128 = if v.len() as u128 <= 4_294_967_295 { v.len() as u128 } else { 1_000_000 };
            count * 1000
        },
        CharType::Other => punctuation_weight_milli as u128,
        CharType::Whitespace => 0,
    }
}

/// Whether a token is whitespace (see `token_kind`).
fn is_whitespace_token(token: &str) -> (r: bool)
    ensures
        r == (token_kind(token@) == CharType::Whitespace),
{
    let v = chars_of(token);
    let first = if v.len() > 0 { v[0] } else { ' ' };
    get_char_type(first) == CharType::Whitespace
}

/// The share `acc` of the weight `total` of the duration `dur`, rounded half
/// up; a billion when the computation does not fit in 128 bits.
fn share_offset(acc: u128, dur: u128, total: u128) -> (r: u128)
    requires
        0 < total <= u128::MAX / 2,
    ensures
        r == if acc * dur * 2 + total <= u128::MAX {
            (acc * dur * 2 + total) / (2 * total)
        } else {
            1_000_000_000
        },
{
    match acc.checked_mul(dur) {
        Some(prod) => match prod.checked_mul(2) {
            Some(twice) => match twice.checked_add(total) {
                Some(num) => num / (2 * total),
                None => 1_000_000_000,
            },
            None => 1_000_000_000,
        },
        None => 1_000_000_000,
    }
}

/// Whether automatic splitting splits the syllable into tokens: it is
/// asked for, the syllable has more than one visible character, and its
/// tokens weigh something.
pub open spec fn is_split(syl: LyricSyllable, options: TtmlGenerationOptions) -> bool {
    &&& options.auto_word_splitting
    &&& trim(syl.text@).len() > 1
    &&& weights_sum(tokens_of(syl.text@), options.punctuation_weight_milli) > 0
}

/// The spans of the syllable `syl` written with the text `text`: its
/// tokens' (see `split_spans`) when automatic splitting is asked for, the
/// text has more than one visible character and its tokens weigh
/// something; else one span of the whole text, followed by a space when
/// formatting and the syllable is followed by one.
pub open spec fn spans_with_text(syl: LyricSyllable, text: Seq<char>, options: TtmlGenerationOptions) -> Seq<
    (nat, nat, Seq<char>),
> {
    let ts = tokens_of(text);
    if options.auto_word_splitting && trim(text).len() > 1 && weights_sum(ts, options.punctuation_weight_milli) > 0 {
        split_spans(syl, ts, ts.len() as int, options.punctuation_weight_milli, options.format)
    } else {
        seq![
            (syl.start_ms as nat, max64(syl.end_ms, syl.start_ms) as nat, if options.format && syl.ends_with_space {
                text + " "@
            } else {
                text
            }),
        ]
    }
}

/// Spans laid end to end: the first starts at `start`, and each of the
/// others starts where the one before it ends.
pub open spec fn contiguous_from(sp: Seq<(nat, nat, Seq<char>)>, start: nat) -> bool {
    &&& sp.len() > 0 ==> sp[0].0 == start
    &&& forall|k: int| 0 <= k < sp.len() - 1 ==> #[trigger] sp[k + 1].0 == sp[k].1
}

/// The spans of the first `n` tokens lie end to end from the syllable's
/// start; there is one when a token among them is visible, and the last
/// ends where the last visible token ends.
proof fn lemma_split_spans_contiguous(syl: LyricSyllable, ts: Seq<Seq<char>>, n: int, punct: u32, fmt: bool)
    requires
        0 <= n <= ts.len(),
    ensures
        contiguous_from(split_spans(syl, ts, n, punct, fmt), syl.start_ms as nat),
        split_spans(syl, ts, n, punct, fmt).len() > 0 <==> last_visible(ts.take(n)) is Some,
        split_spans(syl, ts, n, punct, fmt).len() > 0 ==> split_spans(syl, ts, n, punct, fmt).last().1 == split_end(
            syl,
            ts,
            last_visible(ts.take(n)).unwrap() + 1,
            punct,
        ),
    decreases n,
{
    if n == 0 {
        reveal(split_spans);
        assert(ts.take(0).len() == 0);
    } else {
        lemma_split_spans_contiguous(syl, ts, n - 1, punct, fmt);
        lemma_split_step(syl, ts, n, punct, fmt);
        assert(ts.take(n).drop_last() =~= ts.take(n - 1));
        assert(ts.take(n).last() == ts[n - 1]);
        let prev = split_spans(syl, ts, n - 1, punct, fmt);
        let cur = split_spans(syl, ts, n, punct, fmt);
        if token_kind(ts[n - 1]) != CharType::Whitespace {
            assert forall|k: int| 0 <= k < cur.len() - 1 implies #[trigger] cur[k + 1].0 == cur[k].1 by {
                if k + 1 < prev.len() {
                    assert(cur[k + 1] == prev[k + 1] && cur[k] == prev[k]);
                } else {
                    assert(cur[k] == prev.last());
                }
            }
        }
    }
}

/// Tokens of some weight have a visible one.
proof fn lemma_visible_of_weight(ts: Seq<Seq<char>>, punct: u32)
    requires
        weights_sum(ts, punct) > 0,
    ensures
        last_visible(ts) is Some,
    decreases ts.len(),
{
    if ts.len() > 0 && token_kind(ts.last()) == CharType::Whitespace {
        lemma_visible_of_weight(ts.drop_last(), punct);
    }
}

/// The spans of a syllable lie end to end from its start and, when it does
/// not end before it starts, the last ends at its end.
pub proof fn lemma_syllable_spans_contiguous(syl: LyricSyllable, options: TtmlGenerationOptions)
    ensures
        contiguous_from(syllable_spans(syl, options), syl.start_ms as nat),
        syllable_spans(syl, options).len() > 0,
        syl.start_ms <= syl.end_ms ==> syllable_spans(syl, options).last().1 == syl.end_ms,
{
    let text = syl.text@;
    let ts = tokens_of(text);
    let punct = options.punctuation_weight_milli;
    if options.auto_word_splitting && trim(text).len() > 1 && weights_sum(ts, punct) > 0 {
        lemma_split_spans_contiguous(syl, ts, ts.len() as int, punct, options.format);
        assert(ts.take(ts.len() as int) =~= ts);
        lemma_visible_of_weight(ts, punct);
    }
}

/// The tokens that are not whitespace, in order.
pub open spec fn visible_tokens(ts: Seq<Seq<char>>) -> Seq<Seq<char>>
    decreases ts.len(),
{
    if ts.len() == 0 {
        Seq::empty()
    } else if token_kind(ts.last()) == CharType::Whitespace {
        visible_tokens(ts.drop_last())
    } else {
        visible_tokens(ts.drop_last()).push(ts.last())
    }
}

/// A visible token comes no later than the last visible one.
proof fn lemma_last_visible_at_least(ts: Seq<Seq<char>>, i: int)
    requires
        0 <= i < ts.len(),
        token_kind(ts[i]) != CharType::Whitespace,
    ensures
        last_visible(ts) matches Some(j) && i <= j < ts.len(),
    decreases ts.len(),
{
    if token_kind(ts.last()) == CharType::Whitespace {
        assert(i < ts.len() - 1);
        assert(ts.drop_last()[i] == ts[i]);
        lemma_last_visible_at_least(ts.drop_last(), i);
    }
}

/// There are visible tokens exactly when there is a last one, and it is
/// the last of them.
proof fn lemma_visible_tokens_last(ts: Seq<Seq<char>>)
    ensures
        visible_tokens(ts).len() > 0 <==> last_visible(ts) is Some,
        last_visible(ts) matches Some(j) ==> 0 <= j < ts.len() && visible_tokens(ts).last() == ts[j] && token_kind(
            ts[j],
        ) != CharType::Whitespace,
    decreases ts.len(),
{
    if ts.len() > 0 && token_kind(ts.last()) == CharType::Whitespace {
        lemma_visible_tokens_last(ts.drop_last());
    }
}

/// The first `n` tokens give one span per visible token, in order, each
/// with that token's text; the last also with the space that follows the
/// syllable, when it is the syllable's last visible token.
proof fn lemma_split_spans_texts(syl: LyricSyllable, ts: Seq<Seq<char>>, n: int, punct: u32, fmt: bool)
    requires
        0 <= n <= ts.len(),
    ensures
        split_spans(syl, ts, n, punct, fmt).len() == visible_tokens(ts.take(n)).len(),
        forall|k: int|
            0 <= k < split_spans(syl, ts, n, punct, fmt).len() - 1 ==> #[trigger] split_spans(
                syl,
                ts,
                n,
                punct,
                fmt,
            )[k].2 == visible_tokens(ts.take(n))[k],
        split_spans(syl, ts, n, punct, fmt).len() > 0 ==> split_spans(syl, ts, n, punct, fmt).last().2 == split_text(
            syl,
            ts,
            last_visible(ts.take(n)).unwrap() + 1,
            fmt,
        ),
    decreases n,
{
    if n == 0 {
        reveal(split_spans);
        assert(ts.take(0) =~= Seq::<Seq<char>>::empty());
    } else {
        lemma_split_spans_texts(syl, ts, n - 1, punct, fmt);
        lemma_split_step(syl, ts, n, punct, fmt);
        assert(ts.take(n).drop_last() =~= ts.take(n - 1));
        assert(ts.take(n).last() == ts[n - 1]);
        let prev = split_spans(syl, ts, n - 1, punct, fmt);
        let cur = split_spans(syl, ts, n, punct, fmt);
        let vp = visible_tokens(ts.take(n - 1));
        if token_kind(ts[n - 1]) != CharType::Whitespace && prev.len() > 0 {
            lemma_split_spans_contiguous(syl, ts, n - 1, punct, fmt);
            lemma_visible_tokens_last(ts.take(n - 1));
            let j = last_visible(ts.take(n - 1)).unwrap();
            assert(ts.take(n - 1)[j] == ts[j]);
            lemma_last_visible_at_least(ts, n - 1);
            assert forall|k: int| 0 <= k < cur.len() - 1 implies #[trigger] cur[k].2 == visible_tokens(ts.take(n))[k] by {
                assert(cur[k] == prev[k]);
                assert(visible_tokens(ts.take(n))[k] == vp[k]);
            }
        }
    }
}

/// When a syllable is split, its spans are its visible tokens, one each and
/// in order, written as they are; the last one also carries the space that
/// follows the syllable when formatting.
pub proof fn lemma_syllable_span_texts(syl: LyricSyllable, options: TtmlGenerationOptions)
    requires
        is_split(syl, options),
    ensures
        syllable_spans(syl, options).len() == visible_tokens(tokens_of(syl.text@)).len(),
        syllable_spans(syl, options).len() > 0,
        forall|k: int|
            0 <= k < syllable_spans(syl, options).len() - 1 ==> #[trigger] syllable_spans(syl, options)[k].2
                == visible_tokens(tokens_of(syl.text@))[k],
        syllable_spans(syl, options).last().2 == if options.format && syl.ends_with_space {
            visible_tokens(tokens_of(syl.text@)).last().push(' ')
        } else {
            visible_tokens(tokens_of(syl.text@)).last()
        },
{
    let ts = tokens_of(syl.text@);
    let punct = options.punctuation_weight_milli;
    lemma_split_spans_texts(syl, ts, ts.len() as int, punct, options.format);
    lemma_syllable_spans_contiguous(syl, options);
    assert(ts.take(ts.len() as int) =~= ts);
    lemma_visible_tokens_last(ts);
}

/// The weights of a prefix of the tokens grow with the prefix.
proof fn lemma_weights_prefix(ts: Seq<Seq<char>>, punct: u32, a: int, b: int)
    requires
        0 <= a <= b <= ts.len(),
    ensures
        0 <= weights_sum(ts.take(a), punct) <= weights_sum(ts.take(b), punct),
    decreases b - a,
{
    lemma_weights_nonneg(ts.take(a), punct);
    if a < b {
        lemma_weights_prefix(ts, punct, a, b - 1);
        assert(ts.take(b).drop_last() =~= ts.take(b - 1));
    }
}

/// Weights are never negative.
proof fn lemma_weights_nonneg(ts: Seq<Seq<char>>, punct: u32)
    ensures
        weights_sum(ts, punct) >= 0,
    decreases ts.len(),
{
    if ts.len() > 0 {
        lemma_weights_nonneg(ts.drop_last(), punct);
    }
}

/// A larger share of the weight ends no earlier, and no share ends after
/// the whole duration.
proof fn lemma_token_offset_order(a1: int, a2: int, d: int, t: int)
    requires
        0 <= a1 <= a2 <= t,
        0 <= d <= u32::MAX,
        0 < t <= 0x8000_0000_0000_0000_0000_0000,
    ensures
        token_offset(a1, d, t) <= token_offset(a2, d, t),
        token_offset(a2, d, t) <= d,
{
    let n1 = a1 * d * 2 + t;
    let n2 = a2 * d * 2 + t;
    assert(a1 * d <= a2 * d && a2 * d <= t * d) by (nonlinear_arith)
        requires
            0 <= a1 <= a2 <= t,
            0 <= d,
    ;
    assert(t * d <= 0x8000_0000_0000_0000_0000_0000 * 0xffff_ffff) by (nonlinear_arith)
        requires
            0 < t <= 0x8000_0000_0000_0000_0000_0000,
            0 <= d <= 0xffff_ffff,
    ;
    assert(n1 <= n2 <= u128::MAX);
    vstd::arithmetic::div_mod::lemma_div_is_ordered(n1, n2, 2 * t);
    let q = n2 / (2 * t);
    vstd::arithmetic::div_mod::lemma_fundamental_div_mod(n2, 2 * t);
    assert(q <= d) by (nonlinear_arith)
        requires
            n2 == (2 * t) * q + n2 % (2 * t),
            0 <= n2 % (2 * t) < 2 * t,
            n2 == a2 * d * 2 + t,
            a2 * d <= t * d,
            0 < t,
            0 <= d,
    {
        if q >= d + 1 {
            assert((2 * t) * q >= (2 * t) * (d + 1));
        }
    }
}

/// A span of a split syllable ends no later than the span of a later
/// visible token.
proof fn lemma_split_end_order(syl: LyricSyllable, ts: Seq<Seq<char>>, m1: int, m2: int, punct: u32)
    requires
        1 <= m1 < m2 <= ts.len(),
        token_kind(ts[m2 - 1]) != CharType::Whitespace,
        syl.start_ms <= syl.end_ms,
        0 < weights_sum(ts, punct) <= 0x8000_0000_0000_0000_0000_0000,
    ensures
        split_end(syl, ts, m1, punct) <= split_end(syl, ts, m2, punct),
{
    let t = weights_sum(ts, punct);
    let d = split_duration(syl);
    lemma_weights_prefix(ts, punct, m1, m2);
    lemma_weights_prefix(ts, punct, m2, ts.len() as int);
    assert(ts.take(ts.len() as int) =~= ts);
    lemma_last_visible_at_least(ts, m2 - 1);
    let a1 = weights_sum(ts.take(m1), punct);
    let a2 = weights_sum(ts.take(m2), punct);
    lemma_token_offset_order(a1, a2, d, t);
    lemma_token_offset_order(a1, t, d, t);
}

/// A span of a split syllable ends no earlier than the syllable starts.
proof fn lemma_split_end_after_start(syl: LyricSyllable, ts: Seq<Seq<char>>, n: int, punct: u32)
    requires
        0 <= n <= ts.len(),
        syl.start_ms <= syl.end_ms,
        0 < weights_sum(ts, punct),
    ensures
        split_end(syl, ts, n, punct) >= syl.start_ms,
{
    let t = weights_sum(ts, punct);
    let a = weights_sum(ts.take(n), punct);
    lemma_weights_nonneg(ts.take(n), punct);
    let d = split_duration(syl);
    assert(a * d >= 0) by (nonlinear_arith)
        requires
            a >= 0,
            d >= 0,
    ;
    let num = a * d * 2 + t;
    if num <= u128::MAX {
        vstd::arithmetic::div_mod::lemma_div_is_ordered(0, num, 2 * t);
    }
}

/// The spans of the first `n` tokens end in order.
proof fn lemma_split_spans_ordered(syl: LyricSyllable, ts: Seq<Seq<char>>, n: int, punct: u32, fmt: bool)
    requires
        0 <= n <= ts.len(),
        syl.start_ms <= syl.end_ms,
        0 < weights_sum(ts, punct) <= 0x8000_0000_0000_0000_0000_0000,
    ensures
        forall|j: int, k: int|
            0 <= j <= k < split_spans(syl, ts, n, punct, fmt).len() ==> (#[trigger] split_spans(syl, ts, n, punct, fmt)[j]).1
                <= (#[trigger] split_spans(syl, ts, n, punct, fmt)[k]).1,
        forall|k: int|
            0 <= k < split_spans(syl, ts, n, punct, fmt).len() ==> (#[trigger] split_spans(syl, ts, n, punct, fmt)[k]).1
                >= syl.start_ms,
    decreases n,
{
    if n == 0 {
        lemma_split_empty(syl, ts, punct, fmt);
    } else {
        lemma_split_spans_ordered(syl, ts, n - 1, punct, fmt);
        lemma_split_step(syl, ts, n, punct, fmt);
        let prev = split_spans(syl, ts, n - 1, punct, fmt);
        let cur = split_spans(syl, ts, n, punct, fmt);
        lemma_split_end_after_start(syl, ts, n, punct);
        if token_kind(ts[n - 1]) != CharType::Whitespace {
            assert forall|k: int| 0 <= k < cur.len() implies (#[trigger] cur[k]).1 >= syl.start_ms by {
                if k < prev.len() {
                    assert(cur[k] == prev[k]);
                }
            }
        }
        if token_kind(ts[n - 1]) != CharType::Whitespace && prev.len() > 0 {
            lemma_split_spans_contiguous(syl, ts, n - 1, punct, fmt);
            lemma_visible_tokens_last(ts.take(n - 1));
            let j = last_visible(ts.take(n - 1)).unwrap();
            lemma_split_end_order(syl, ts, j + 1, n, punct);
            assert forall|a: int, b: int| 0 <= a <= b < cur.len() implies (#[trigger] cur[a]).1 <= (
            #[trigger] cur[b]).1 by {
                if b < prev.len() {
                    assert(cur[a] == prev[a] && cur[b] == prev[b]);
                } else if a < prev.len() {
                    assert(cur[a] == prev[a] && cur[b] == cur.last());
                    assert(prev.last() == prev[prev.len() - 1]);
                    assert(prev[a].1 <= prev[prev.len() - 1].1);
                }
            }
        }
    }
}

/// When a syllable does not end before it starts (and its tokens weigh
/// no more than 2^95 thousandths of a letter), its spans end in order, and each
/// starts no later than it ends.
pub proof fn lemma_syllable_spans_ordered(syl: LyricSyllable, options: TtmlGenerationOptions)
    requires
        syl.start_ms <= syl.end_ms,
        weights_sum(tokens_of(syl.text@), options.punctuation_weight_milli) <= 0x8000_0000_0000_0000_0000_0000,
    ensures
        forall|j: int, k: int|
            0 <= j <= k < syllable_spans(syl, options).len() ==> (#[trigger] syllable_spans(syl, options)[j]).1 <= (
            #[trigger] syllable_spans(syl, options)[k]).1,
        forall|k: int| 0 <= k < syllable_spans(syl, options).len() ==> (#[trigger] syllable_spans(syl, options)[k]).0
            <= syllable_spans(syl, options)[k].1,
{
    let ts = tokens_of(syl.text@);
    let punct = options.punctuation_weight_milli;
    let sp = syllable_spans(syl, options);
    lemma_syllable_spans_contiguous(syl, options);
    if is_split(syl, options) {
        lemma_split_spans_ordered(syl, ts, ts.len() as int, punct, options.format);
        let ss = split_spans(syl, ts, ts.len() as int, punct, options.format);
        assert(sp == ss);
        assert forall|k: int| 0 <= k < sp.len() implies (#[trigger] sp[k]).0 <= sp[k].1 by {
            if k > 0 {
                let j = k - 1;
                assert(sp[j + 1].0 == sp[j].1);
                assert(ss[j].1 <= ss[k].1);
            } else {
                assert(sp[0].0 == syl.start_ms);
                assert(ss[0].1 >= syl.start_ms);
            }
        }
    } else {
        assert(sp.len() == 1 && sp[0].0 <= sp[0].1);
    }
}

/// The spans of a syllable (see `spans_with_text`).
pub open spec fn syllable_spans(syl: LyricSyllable, options: TtmlGenerationOptions) -> Seq<(nat, nat, Seq<char>)> {
    spans_with_text(syl, syl.text@, options)
}

/// `split_spans` reads of the syllable only its times and whether a space
/// follows it.
proof fn lemma_split_spans_fields(
    a: LyricSyllable,
    b: LyricSyllable,
    ts: Seq<Seq<char>>,
    n: int,
    punct: u32,
    fmt: bool,
)
    requires
        a.start_ms == b.start_ms,
        a.end_ms == b.end_ms,
        a.ends_with_space == b.ends_with_space,
    ensures
        split_spans(a, ts, n, punct, fmt) == split_spans(b, ts, n, punct, fmt),
    decreases n,
{
    reveal(split_spans);
    if n > 0 && n <= ts.len() {
        lemma_split_spans_fields(a, b, ts, n - 1, punct, fmt);
    }
}

/// The nodes are the spans `sp`, in order.
pub open spec fn spans_are(nodes: Seq<XmlNode>, sp: Seq<(nat, nat, Seq<char>)>) -> bool {
    nodes.len() == sp.len() && forall|k: int| 0 <= k < sp.len() ==> #[trigger] is_span(nodes[k], sp[k].0, sp[k].1, sp[k].2)
}

/// Whether a space is written as text after syllable `i` of `syls`: it is
/// followed by a space, is not the last, and the output is compact.
pub open spec fn space_after(syls: Seq<LyricSyllable>, i: int, format: bool) -> bool {
    syls[i].ends_with_space && i + 1 < syls.len() && !format
}

/// The text syllable `i` of `syls` is written with: in brackets (see
/// `bracketed`) for background vocals, else its own.
pub open spec fn syllable_text_as(syls: Seq<LyricSyllable>, i: int, bracket: bool) -> Seq<char> {
    if bracket {
        bracketed(syls[i].text@, i, syls.len() as int)
    } else {
        syls[i].text@
    }
}

/// Background syllables are written (see `syllable_text_as`) in one pair
/// of brackets: when the first and last hold text, their written texts
/// concatenate to `(`, every syllable's text in order, and `)`.
pub proof fn lemma_background_syllables_in_brackets(syls: Seq<LyricSyllable>)
    requires
        syls.len() >= 1,
        !all_ws(syls[0].text@),
        !all_ws(syls[syls.len() - 1].text@),
    ensures
        crate::tokenize::concat(Seq::new(syls.len(), |i: int| syllable_text_as(syls, i, true))) == seq!['(']
            + crate::tokenize::concat(Seq::new(syls.len(), |i: int| syls[i].text@)) + seq![')'],
{
    let ts = Seq::new(syls.len(), |i: int| syls[i].text@);
    lemma_background_in_brackets(ts);
    assert(Seq::new(syls.len(), |i: int| syllable_text_as(syls, i, true)) =~= bracketed_all(ts));
}

/// The number of nodes of the first `n` syllables (see `track_nodes_ok`).
pub open spec fn track_nodes_len(syls: Seq<LyricSyllable>, n: int, options: TtmlGenerationOptions, bracket: bool) -> nat
    decreases n,
{
    if n <= 0 {
        0
    } else {
        track_nodes_len(syls, n - 1, options, bracket) + spans_with_text(
            syls[n - 1],
            syllable_text_as(syls, n - 1, bracket),
            options,
        ).len() + if space_after(syls, n - 1, options.format) {
            1nat
        } else {
            0nat
        }
    }
}

/// The nodes of the first `n` syllables of a track: for each, its spans
/// (see `spans_with_text`, with the text `syllable_text_as`), then a space when
/// `space_after` says so.
pub open spec fn track_nodes_ok(
    nodes: Seq<XmlNode>,
    syls: Seq<LyricSyllable>,
    n: int,
    options: TtmlGenerationOptions,
    bracket: bool,
) -> bool
    decreases n,
{
    if n <= 0 {
        nodes.len() == 0
    } else {
        let sp = spans_with_text(syls[n - 1], syllable_text_as(syls, n - 1, bracket), options);
        let gap = space_after(syls, n - 1, options.format);
        let tail = sp.len() + if gap {
            1int
        } else {
            0int
        };
        &&& nodes.len() >= tail
        &&& track_nodes_ok(nodes.subrange(0, nodes.len() - tail), syls, n - 1, options, bracket)
        &&& spans_are(nodes.subrange(nodes.len() - tail, nodes.len() - tail + sp.len()), sp)
        &&& gap ==> (nodes.last() matches XmlNode::Text(t) && t@ == " "@)
    }
}

/// The nodes of `track_nodes_ok` are `track_nodes_len` of them.
proof fn lemma_track_nodes_len(
    nodes: Seq<XmlNode>,
    syls: Seq<LyricSyllable>,
    n: int,
    options: TtmlGenerationOptions,
    bracket: bool,
)
    requires
        n <= syls.len(),
        track_nodes_ok(nodes, syls, n, options, bracket),
    ensures
        nodes.len() == track_nodes_len(syls, n, options, bracket),
    decreases n,
{
    if n > 0 {
        let sp = spans_with_text(syls[n - 1], syllable_text_as(syls, n - 1, bracket), options);
        let gap = space_after(syls, n - 1, options.format);
        let tail = sp.len() + if gap {
            1int
        } else {
            0int
        };
        lemma_track_nodes_len(nodes.subrange(0, nodes.len() - tail), syls, n - 1, options, bracket);
    }
}

/// The spans of a syllable. With automatic splitting, a syllable of more
/// than one visible character is split into tokens (see `auto_tokenize`)
/// that share its time by weight (see `split_spans`); otherwise, or when
/// the tokens weigh nothing, it is one span.
#[verifier::rlimit(60)]
pub fn write_syllable_with_optional_splitting(syl: &LyricSyllable, options: &TtmlGenerationOptions) -> (r: Vec<
    XmlNode,
>)
    ensures
        spans_are(r@, syllable_spans(*syl, *options)),
        forall|i: int| 0 <= i < r@.len() ==> (#[trigger] r@[i] matches XmlNode::Element { .. }),
{
    let mut nodes: Vec<XmlNode> = Vec::new();
    let trimmed = trim_string(syl.text.as_str());
    let punct = options.punctuation_weight_milli;
    if options.auto_word_splitting && trimmed.unicode_len() > 1 {
        let tokens = auto_tokenize(syl.text.as_str());
        let ghost ts = tokens_of(syl.text@);
        assert(texts(tokens@) == ts);
        let mut last_vis: Option<usize> = None;
        let mut total_weight: u128 = 0;
        let mut k: usize = 0;
        while k < tokens.len()
            invariant
                k <= tokens@.len(),
                texts(tokens@) == ts,
                ts.len() == tokens@.len(),
                total_weight == weights_sum(ts.take(k as int), punct),
                total_weight <= k * 4_294_967_295_000,
                match last_vis {
                    Some(v) => last_visible(ts.take(k as int)) == Some(v as int),
                    None => last_visible(ts.take(k as int)) is None,
                },
            decreases tokens@.len() - k,
        {
            assert(ts.take(k + 1).drop_last() =~= ts.take(k as int));
            assert(ts[k as int] == tokens@[k as int]@);
            if !is_whitespace_token(tokens[k].as_str()) {
                last_vis = Some(k);
            }
            let w = token_weight(tokens[k].as_str(), punct);
            assert(total_weight + w <= (k + 1) * 4_294_967_295_000) by (nonlinear_arith)
                requires
                    total_weight <= k * 4_294_967_295_000,
                    w <= 4_294_967_295_000,
            ;
            total_weight = total_weight + w;
            k = k + 1;
        }
        assert(ts.take(tokens@.len() as int) =~= ts);
        if total_weight > 0 {
            proof {
                lemma_split_empty(*syl, ts, punct, options.format);
            }
            let total_duration = if syl.end_ms >= syl.start_ms { syl.end_ms - syl.start_ms } else { 0 };
            let safe_duration: u128 = if total_duration <= 4_294_967_295 { total_duration as u128 } else { 2_000_000_000 };
            let mut current_token_start_ms = syl.start_ms;
            let mut accumulated_weight: u128 = 0;
            let mut idx: usize = 0;
            while idx < tokens.len()
                invariant
                    idx <= tokens@.len(),
                    texts(tokens@) == ts,
                    ts.len() == tokens@.len(),
                    total_weight == weights_sum(ts, punct),
                    total_weight > 0,
                    total_weight <= tokens@.len() * 4_294_967_295_000,
                    accumulated_weight == weights_sum(ts.take(idx as int), punct),
                    accumulated_weight <= idx * 4_294_967_295_000,
                    safe_duration == split_duration(*syl),
                    safe_duration <= 4_294_967_295,
                    match last_vis {
                        Some(v) => last_visible(ts) == Some(v as int),
                        None => last_visible(ts) is None,
                    },
                    ({
                        let sp = split_spans(*syl, ts, idx as int, punct, options.format);
                        &&& nodes@.len() == sp.len()
                        &&& forall|q: int| 0 <= q < sp.len() ==> #[trigger] is_span(nodes@[q], sp[q].0, sp[q].1, sp[q].2)
                        &&& current_token_start_ms == if sp.len() == 0 {
                            syl.start_ms as nat
                        } else {
                            sp.last().1
                        }
                    }),
                    forall|i: int| 0 <= i < nodes@.len() ==> (#[trigger] nodes@[i] matches XmlNode::Element { .. }),
                decreases tokens@.len() - idx,
            {
                let ghost sp0 = split_spans(*syl, ts, idx as int, punct, options.format);
                proof {
                    lemma_split_step(*syl, ts, idx + 1, punct, options.format);
                }
                assert(ts.take(idx + 1).drop_last() =~= ts.take(idx as int));
                assert(ts[idx as int] == tokens@[idx as int]@);
                let token = tokens[idx].as_str();
                let w = token_weight(token, punct);
                assert(accumulated_weight + w <= (idx + 1) * 4_294_967_295_000) by (nonlinear_arith)
                    requires
                        accumulated_weight <= idx * 4_294_967_295_000,
                        w <= 4_294_967_295_000,
                ;
                if !is_whitespace_token(token) {
                    accumulated_weight = accumulated_weight + w;
                    // round(accumulated * duration / total), halves rounded up
                    let offset = share_offset(accumulated_weight, safe_duration, total_weight);
                    let safe_offset: u64 = if offset <= 1_000_000_000 { offset as u64 } else { 1_000_000_000 };
                    let mut token_end_ms = syl.start_ms.saturating_add(safe_offset);
                    let is_last = match last_vis {
                        Some(j) => j == idx,
                        None => false,
                    };
                    if is_last {
                        token_end_ms = syl.end_ms;
                    }
                    let mut text_to_write = to_owned_string(token);
                    if options.format && syl.ends_with_space && is_last {
                        push_char(&mut text_to_write, ' ');
                    }
                    assert(accumulated_weight == weights_sum(ts.take(idx + 1), punct));
                    assert(is_last == (last_visible(ts) == Some(idx as int)));
                    assert(safe_offset == token_offset(accumulated_weight as int, safe_duration as int, total_weight as int));
                    assert(token_end_ms == split_end(*syl, ts, idx + 1, punct));
                    assert(text_to_write@ == split_text(*syl, ts, idx + 1, options.format));
                    nodes.push(span_node(current_token_start_ms, token_end_ms, text_to_write));
                    current_token_start_ms = token_end_ms;
                }
                idx = idx + 1;
            }
            return nodes;
        }
    }
    nodes.push(write_single_syllable_span(syl, options));
    nodes
}

// ---------------------------------------------------------------------------
// Tracks
// ---------------------------------------------------------------------------

/// All syllables of the words, in order.
pub fn flat_syllables(words: &Vec<crate::types::Word>) -> (r: Vec<&LyricSyllable>)
    ensures
        r@.len() == crate::types::word_syllables(words@).len(),
        forall|i: int| 0 <= i < r@.len() ==> *#[trigger] r@[i] == crate::types::word_syllables(words@)[i],
{
    let mut r: Vec<&LyricSyllable> = Vec::new();
    let mut w: usize = 0;
    while w < words.len()
        invariant
            w <= words@.len(),
            r@.len() == crate::types::word_syllables(words@.take(w as int)).len(),
            forall|i: int| 0 <= i < r@.len() ==> *#[trigger] r@[i] == crate::types::word_syllables(words@.take(w as int))[i],
        decreases words@.len() - w,
    {
        let syls = &words[w].syllables;
        assert(words@.take(w + 1).drop_last() =~= words@.take(w as int));
        let ghost prefix = crate::types::word_syllables(words@.take(w as int));
        let mut k: usize = 0;
        while k < syls.len()
            invariant
                w < words@.len(),
                *syls == words@[w as int].syllables,
                k <= syls@.len(),
                r@.len() == prefix.len() + k,
                forall|i: int| 0 <= i < prefix.len() ==> *#[trigger] r@[i] == prefix[i],
                forall|i: int| prefix.len() <= i < r@.len() ==> *#[trigger] r@[i] == syls@[i - prefix.len()],
            decreases syls@.len() - k,
        {
            r.push(&syls[k]);
            k = k + 1;
        }
        assert(crate::types::word_syllables(words@.take(w + 1)) =~= prefix + syls@);
        w = w + 1;
    }
    assert(words@.take(words@.len() as int) =~= words@);
    r
}

/// The spans of a track's syllables, with a space between two syllables
/// when the first is followed by one (compact output only).
pub fn write_track_as_spans(track: &LyricTrack, options: &TtmlGenerationOptions) -> (r: Vec<XmlNode>)
    ensures
        track_nodes_ok(
            r@,
            crate::types::track_syllables(*track),
            crate::types::track_syllables(*track).len() as int,
            *options,
            false,
        ),
{
    proof {
        reveal_strlit(" ");
    }
    let all_syllables = flat_syllables(&track.words);
    let ghost syls = crate::types::track_syllables(*track);
    let n = all_syllables.len();
    let mut nodes: Vec<XmlNode> = Vec::new();
    let mut idx: usize = 0;
    while idx < n
        invariant
            n == all_syllables@.len(),
            n == syls.len(),
            forall|i: int| 0 <= i < n ==> *#[trigger] all_syllables@[i] == syls[i],
            idx <= n,
            track_nodes_ok(nodes@, syls, idx as int, *options, false),
        decreases n - idx,
    {
        let syl = all_syllables[idx];
        let mut pieces = write_syllable_with_optional_splitting(syl, options);
        let ghost before = nodes@;
        let ghost added = pieces@;
        nodes.append(&mut pieces);
        if syl.ends_with_space && idx + 1 < n && !options.format {
            nodes.push(XmlNode::Text(to_owned_string(" ")));
        }
        proof {
            let sp = syllable_spans(syls[idx as int], *options);
            let gap = space_after(syls, idx as int, options.format);
            let tail = sp.len() + if gap {
                1int
            } else {
                0int
            };
            assert(nodes@.subrange(0, nodes@.len() - tail) =~= before);
            assert(nodes@.subrange(nodes@.len() - tail, nodes@.len() - tail + sp.len()) =~= added);
        }
        idx = idx + 1;
    }
    nodes
}

/// The syllables behind the references.
pub open spec fn deref_syllables(s: Seq<&LyricSyllable>) -> Seq<LyricSyllable> {
    s.map_values(|x: &LyricSyllable| *x)
}

/// The texts of the syllables.
pub open spec fn syllable_texts(s: Seq<LyricSyllable>) -> Seq<Seq<char>> {
    s.map_values(|x: LyricSyllable| x.text@)
}

/// The earliest start of the syllables (0 for none).
pub open spec fn earliest_start(s: Seq<LyricSyllable>) -> u64
    decreases s.len(),
{
    if s.len() == 0 {
        0
    } else if s.len() == 1 {
        s[0].start_ms
    } else if s.last().start_ms < earliest_start(s.drop_last()) {
        s.last().start_ms
    } else {
        earliest_start(s.drop_last())
    }
}

/// The latest end of the syllables (0 for none).
pub open spec fn latest_end(s: Seq<LyricSyllable>) -> u64
    decreases s.len(),
{
    if s.len() == 0 {
        0
    } else if s.len() == 1 {
        s[0].end_ms
    } else if s.last().end_ms > latest_end(s.drop_last()) {
        s.last().end_ms
    } else {
        latest_end(s.drop_last())
    }
}

/// The language of the first language entry of a track's metadata.
pub open spec fn first_language(m: Seq<(TrackMetadataKey, String)>) -> Option<Seq<char>>
    decreases m.len(),
{
    if m.len() == 0 {
        None
    } else if m[0].0 is Language {
        Some(m[0].1@)
    } else {
        first_language(m.drop_first())
    }
}

/// The text of background syllable `idx` of `n`: an opening bracket before
/// the first, a closing one after the last, unless the text is blank.
pub open spec fn bracketed(text: Seq<char>, idx: int, n: int) -> Seq<char> {
    if all_ws(text) {
        text
    } else {
        (if n == 1 || idx == 0 {
            seq!['(']
        } else {
            Seq::empty()
        }) + text + (if n == 1 || idx == n - 1 {
            seq![')']
        } else {
            Seq::empty()
        })
    }
}

/// The texts of background syllables as written: each in brackets at the
/// edges of the background vocals (see `bracketed`).
pub open spec fn bracketed_all(ts: Seq<Seq<char>>) -> Seq<Seq<char>> {
    Seq::new(ts.len(), |i: int| bracketed(ts[i], i, ts.len() as int))
}

/// Background vocals are written in one pair of brackets: when their first
/// and last syllables hold text, the written syllable texts concatenate to
/// `(`, every syllable text in order, and `)`.
pub proof fn lemma_background_in_brackets(ts: Seq<Seq<char>>)
    requires
        ts.len() >= 1,
        !all_ws(ts[0]),
        !all_ws(ts[ts.len() - 1]),
    ensures
        crate::tokenize::concat(bracketed_all(ts)) == seq!['('] + crate::tokenize::concat(ts) + seq![')'],
{
    let b = bracketed_all(ts);
    let n = ts.len() as int;
    assert forall|i: int| 0 <= i < b.len() implies #[trigger] b[i] == (if i == 0 {
        seq!['(']
    } else {
        Seq::<char>::empty()
    }) + ts[i] + (if i == b.len() - 1 {
        seq![')']
    } else {
        Seq::<char>::empty()
    }) by {
        if all_ws(ts[i]) {
            assert(i != 0 && i != n - 1);
            assert(b[i] =~= Seq::<char>::empty() + ts[i] + Seq::<char>::empty());
        } else {
            assert(b[i] == bracketed(ts[i], i, n));
        }
    }
    crate::tokenize::lemma_concat_enclosed(b, ts, seq!['('], seq![')']);
}

/// The language of a track, if it has one.
fn track_language(track: &LyricTrack) -> (r: Option<&String>)
    ensures
        match r {
            Some(l) => first_language(track.metadata@) == Some(l@),
            None => first_language(track.metadata@) is None,
        },
{
    let mut i: usize = 0;
    assert(track.metadata@.skip(0) =~= track.metadata@);
    while i < track.metadata.len()
        invariant
            i <= track.metadata@.len(),
            first_language(track.metadata@) == first_language(track.metadata@.skip(i as int)),
        decreases track.metadata@.len() - i,
    {
        assert(track.metadata@.skip(i as int).drop_first() =~= track.metadata@.skip(i + 1));
        match &track.metadata[i].0 {
            TrackMetadataKey::Language => {
                return Some(&track.metadata[i].1);
            },
            _ => {},
        }
        i = i + 1;
    }
    None
}

/// The texts of the syllables joined with `sep`.
fn join_syllable_texts(syls: &Vec<&LyricSyllable>, sep: &str) -> (r: String)
    ensures
        r@ == join_with(syllable_texts(deref_syllables(syls@)), sep@),
{
    let mut out = String::new();
    let mut i: usize = 0;
    let ghost all = syllable_texts(deref_syllables(syls@));
    while i < syls.len()
        invariant
            i <= syls@.len(),
            all == syllable_texts(deref_syllables(syls@)),
            all.len() == syls@.len(),
            out@ == join_with(all.take(i as int), sep@),
        decreases syls@.len() - i,
    {
        assert(all.take(i + 1).drop_last() =~= all.take(i as int));
        assert(all[i as int] == syls@[i as int].text@);
        if i > 0 {
            push_str(&mut out, sep);
        }
        push_str(&mut out, syls[i].text.as_str());
        proof {
            if i == 0 {
                assert(all.take(1) =~= seq![all[0]]);
            }
        }
        i = i + 1;
    }
    assert(all.take(syls@.len() as int) =~= all);
    out
}

/// The earliest start and the latest end of the syllables (0 and 0 for none).
fn syllables_span(syls: &Vec<&LyricSyllable>) -> (r: (u64, u64))
    ensures
        r == (earliest_start(deref_syllables(syls@)), latest_end(deref_syllables(syls@))),
{
    let ghost all = deref_syllables(syls@);
    if syls.len() == 0 {
        return (0, 0);
    }
    let mut start = syls[0].start_ms;
    let mut end = syls[0].end_ms;
    let mut i: usize = 1;
    assert(all.take(1).drop_last() =~= Seq::<LyricSyllable>::empty());
    while i < syls.len()
        invariant
            1 <= i <= syls@.len(),
            all == deref_syllables(syls@),
            start == earliest_start(all.take(i as int)),
            end == latest_end(all.take(i as int)),
        decreases syls@.len() - i,
    {
        assert(all.take(i + 1).drop_last() =~= all.take(i as int));
        if syls[i].start_ms < start {
            start = syls[i].start_ms;
        }
        if syls[i].end_ms > end {
            end = syls[i].end_ms;
        }
        i = i + 1;
    }
    assert(all.take(syls@.len() as int) =~= all);
    (start, end)
}

/// The attributes of an annotation span: its role, then its language
/// when it has one that is not empty.
pub open spec fn annotation_attrs(role: Seq<char>, lang: Option<Seq<char>>) -> Seq<(Seq<char>, Seq<char>)> {
    seq![("ttm:role"@, role)] + match lang {
        Some(l) => if l.len() > 0 {
            seq![("xml:lang"@, l)]
        } else {
            Seq::empty()
        },
        None => Seq::empty(),
    }
}

/// `r` is an annotation track written inside a line with the role `role`:
/// nothing without syllables; as a span holding its syllables' spans (see
/// `track_nodes_ok`), timed from the earliest start to the latest end, when
/// it has several syllables, one of them timed, in syllable timing;
/// otherwise as a span of its syllables' texts joined (with spaces when
/// formatting) and normalised, nothing when that is empty.
pub open spec fn inline_annotation_ok(r: Option<XmlNode>, track: LyricTrack, role: Seq<char>, options: TtmlGenerationOptions) -> bool {
    let syls = crate::types::track_syllables(track);
    let base = annotation_attrs(role, first_language(track.metadata@));
    let timed = exists|k: int| 0 <= k < syls.len() && (#[trigger] syls[k]).end_ms > syls[k].start_ms;
    let text = normalize_ws(
        join_with(
            syllable_texts(syls),
            if options.format {
                " "@
            } else {
                ""@
            },
        ),
    );
    if syls.len() == 0 {
        r is None
    } else if timed && options.timing_mode == TtmlTimingMode::Word && syls.len() > 1 {
        r matches Some(n) && n matches XmlNode::Element { name, attrs, attr_lines, content: XmlContent::Children(c) }
            && name@ == "span"@ && !attr_lines && attr_views(attrs@) == base + seq![
            ("begin"@, format_time_spec(earliest_start(syls) as nat)),
            ("end"@, format_time_spec(latest_end(syls) as nat)),
        ] && track_nodes_ok(c@, syls, syls.len() as int, options, false)
    } else if text.len() == 0 {
        r is None
    } else {
        r matches Some(n) && is_text_element(n, "span"@, base, text)
    }
}

/// An annotation written inside the line as a span with the given role: as
/// timed spans when it has several syllables, one of them timed, in
/// syllable timing; otherwise as its normalised text. Nothing when it has
/// no syllable or no text.
fn write_inline_auxiliary_track(track: &LyricTrack, role: &str, options: &TtmlGenerationOptions) -> (r: Option<XmlNode>)
    ensures
        inline_annotation_ok(r, *track, role@, *options),
{
    let mut attrs: Vec<(String, String)> = Vec::new();
    attrs.push(attr("ttm:role", to_owned_string(role)));
    match track_language(track) {
        Some(lang) => {
            if !crate::text::text_is_empty(lang.as_str()) {
                attrs.push(attr("xml:lang", to_owned_string(lang.as_str())));
            }
        },
        None => {},
    }
    let all_syllables = flat_syllables(&track.words);
    let ghost syls = crate::types::track_syllables(*track);
    assert(deref_syllables(all_syllables@) =~= syls);
    assert(attr_views(attrs@) == annotation_attrs(role@, first_language(track.metadata@)));
    if all_syllables.len() == 0 {
        return None;
    }
    let mut is_timed = false;
    let mut i: usize = 0;
    while i < all_syllables.len()
        invariant
            i <= all_syllables@.len(),
            deref_syllables(all_syllables@) == syls,
            is_timed == exists|k: int| 0 <= k < i && (#[trigger] syls[k]).end_ms > syls[k].start_ms,
        decreases all_syllables@.len() - i,
    {
        assert(*all_syllables@[i as int] == syls[i as int]);
        if all_syllables[i].end_ms > all_syllables[i].start_ms {
            is_timed = true;
        }
        i = i + 1;
    }
    let nested = is_timed && options.timing_mode == TtmlTimingMode::Word && all_syllables.len() > 1;
    proof {
        reveal_strlit("span");
        reveal_strlit("ttm:role");
    }
    if nested {
        let (start_ms, end_ms) = syllables_span(&all_syllables);
        let ghost a0 = attrs@;
        attrs.push(attr("begin", format_ttml_time(start_ms)));
        attrs.push(attr("end", format_ttml_time(end_ms)));
        proof {
            reveal_strlit("begin");
            reveal_strlit("end");
            assert(attr_views(attrs@) =~= attr_views(a0) + seq![
                ("begin"@, format_time_spec(start_ms as nat)),
                ("end"@, format_time_spec(end_ms as nat)),
            ]);
        }
        Some(element("span", attrs, write_track_as_spans(track, options)))
    } else {
        let full_text = join_syllable_texts(&all_syllables, if options.format { " " } else { "" });
        let normalized_text = normalize_text_whitespace(full_text.as_str());
        if crate::text::text_is_empty(normalized_text.as_str()) {
            None
        } else {
            Some(text_element("span", attrs, normalized_text))
        }
    }
}

/// The annotations a track writes inline, with their roles: its
/// translations, then its romanisations.
pub open spec fn annotation_items(at: AnnotatedTrack) -> Seq<(LyricTrack, Seq<char>)> {
    at.translations@.map_values(|t: LyricTrack| (t, "x-translation"@)) + at.romanizations@.map_values(
        |t: LyricTrack| (t, "x-roman"@),
    )
}

/// The annotations several tracks write inline, track after track.
pub open spec fn tracks_annotation_items(ts: Seq<AnnotatedTrack>) -> Seq<(LyricTrack, Seq<char>)>
    decreases ts.len(),
{
    if ts.len() == 0 {
        Seq::empty()
    } else {
        tracks_annotation_items(ts.drop_last()) + annotation_items(ts.last())
    }
}

/// The nodes of the first `n` inline annotations `items`: each written as
/// `inline_annotation_ok` says, those that write nothing left out.
pub open spec fn inline_nodes_ok(
    nodes: Seq<XmlNode>,
    items: Seq<(LyricTrack, Seq<char>)>,
    n: int,
    options: TtmlGenerationOptions,
) -> bool
    decreases n,
{
    if n <= 0 {
        nodes.len() == 0
    } else {
        let it = items[n - 1];
        if inline_annotation_ok(None, it.0, it.1, options) {
            inline_nodes_ok(nodes, items, n - 1, options)
        } else {
            &&& nodes.len() > 0
            &&& inline_annotation_ok(Some(nodes.last()), it.0, it.1, options)
            &&& inline_nodes_ok(nodes.drop_last(), items, n - 1, options)
        }
    }
}

/// The inline nodes of two runs of annotations, one after the other.
proof fn lemma_inline_nodes_concat(
    a: Seq<XmlNode>,
    b: Seq<XmlNode>,
    x: Seq<(LyricTrack, Seq<char>)>,
    y: Seq<(LyricTrack, Seq<char>)>,
    m: int,
    options: TtmlGenerationOptions,
)
    requires
        0 <= m <= y.len(),
        inline_nodes_ok(a, x, x.len() as int, options),
        inline_nodes_ok(b, y, m, options),
    ensures
        inline_nodes_ok(a + b, x + y, x.len() + m, options),
    decreases m,
{
    let xy = x + y;
    if m == 0 {
        assert(b.len() == 0);
        assert(a + b =~= a);
        lemma_inline_nodes_prefix(a, x, xy, x.len() as int, options);
    } else {
        let it = y[m - 1];
        assert(xy[x.len() + m - 1] == it);
        if inline_annotation_ok(None, it.0, it.1, options) {
            lemma_inline_nodes_concat(a, b, x, y, m - 1, options);
        } else {
            lemma_inline_nodes_concat(a, b.drop_last(), x, y, m - 1, options);
            assert((a + b).drop_last() =~= a + b.drop_last());
            assert((a + b).last() == b.last());
        }
    }
}

/// The inline nodes of the first `n` annotations depend only on those.
proof fn lemma_inline_nodes_prefix(
    nodes: Seq<XmlNode>,
    x: Seq<(LyricTrack, Seq<char>)>,
    z: Seq<(LyricTrack, Seq<char>)>,
    n: int,
    options: TtmlGenerationOptions,
)
    requires
        0 <= n <= x.len(),
        n <= z.len(),
        forall|k: int| 0 <= k < n ==> #[trigger] x[k] == z[k],
        inline_nodes_ok(nodes, x, n, options),
    ensures
        inline_nodes_ok(nodes, z, n, options),
    decreases n,
{
    if n > 0 {
        let it = x[n - 1];
        assert(z[n - 1] == it);
        if inline_annotation_ok(None, it.0, it.1, options) {
            lemma_inline_nodes_prefix(nodes, x, z, n - 1, options);
        } else {
            lemma_inline_nodes_prefix(nodes.drop_last(), x, z, n - 1, options);
        }
    }
}

/// Writes one inline annotation, if it writes anything.
fn push_inline_annotation(nodes: &mut Vec<XmlNode>, track: &LyricTrack, role: &str, options: &TtmlGenerationOptions)
    ensures
        if inline_annotation_ok(None, *track, role@, *options) {
            final(nodes)@ == old(nodes)@
        } else {
            &&& final(nodes)@.len() == old(nodes)@.len() + 1
            &&& final(nodes)@.drop_last() =~= old(nodes)@
            &&& inline_annotation_ok(Some(final(nodes)@.last()), *track, role@, *options)
        },
{
    match write_inline_auxiliary_track(track, role, options) {
        Some(n) => {
            nodes.push(n);
        },
        None => {},
    }
}

/// Writes the inline annotations of a track (see `annotation_items`) after
/// `nodes`.
fn push_track_annotations(nodes: &mut Vec<XmlNode>, at: &AnnotatedTrack, options: &TtmlGenerationOptions)
    ensures
        final(nodes)@.len() >= old(nodes)@.len(),
        final(nodes)@.subrange(0, old(nodes)@.len() as int) == old(nodes)@,
        inline_nodes_ok(
            final(nodes)@.subrange(old(nodes)@.len() as int, final(nodes)@.len() as int),
            annotation_items(*at),
            annotation_items(*at).len() as int,
            *options,
        ),
{
    proof {
        reveal_strlit("x-translation");
        reveal_strlit("x-roman");
    }
    let ghost base = nodes@.len() as int;
    let ghost start = nodes@;
    let ghost items = annotation_items(*at);
    let nt = at.translations.len();
    let mut k: usize = 0;
    while k < nt
        invariant
            nt == at.translations@.len(),
            k <= nt,
            items == annotation_items(*at),
            nodes@.len() >= base,
            base == start.len(),
            nodes@.subrange(0, base) == start,
            inline_nodes_ok(nodes@.subrange(base, nodes@.len() as int), items, k as int, *options),
        decreases nt - k,
    {
        let ghost before = nodes@;
        push_inline_annotation(nodes, &at.translations[k], "x-translation", options);
        proof {
            assert(items[k as int] == (at.translations@[k as int], "x-translation"@));
            assert(nodes@.subrange(0, base) =~= before.subrange(0, base));
            if !inline_annotation_ok(None, at.translations@[k as int], "x-translation"@, *options) {
                assert(nodes@.subrange(base, nodes@.len() as int).drop_last() =~= before.subrange(
                    base,
                    before.len() as int,
                ));
            }
        }
        k = k + 1;
    }
    let nr = at.romanizations.len();
    let mut k2: usize = 0;
    while k2 < nr
        invariant
            nt == at.translations@.len(),
            nr == at.romanizations@.len(),
            k2 <= nr,
            items == annotation_items(*at),
            nodes@.len() >= base,
            base == start.len(),
            nodes@.subrange(0, base) == start,
            inline_nodes_ok(nodes@.subrange(base, nodes@.len() as int), items, nt + k2, *options),
        decreases nr - k2,
    {
        let ghost before = nodes@;
        push_inline_annotation(nodes, &at.romanizations[k2], "x-roman", options);
        proof {
            assert(items[nt + k2] == (at.romanizations@[k2 as int], "x-roman"@));
            assert(nodes@.subrange(0, base) =~= before.subrange(0, base));
            if !inline_annotation_ok(None, at.romanizations@[k2 as int], "x-roman"@, *options) {
                assert(nodes@.subrange(base, nodes@.len() as int).drop_last() =~= before.subrange(
                    base,
                    before.len() as int,
                ));
            }
        }
        k2 = k2 + 1;
    }
}

/// The text of a background syllable `idx` of `n`: in brackets at the edges
/// of the background vocals, unless blank.
fn bracketed_text(text: &str, idx: usize, n: usize) -> (r: String)
    requires
        idx < n,
    ensures
        r@ == bracketed(text@, idx as int, n as int),
{
    if is_blank(text) {
        return to_owned_string(text);
    }
    let mut out = String::new();
    if n == 1 || idx == 0 {
        push_char(&mut out, '(');
    }
    push_str(&mut out, text);
    if n == 1 || idx == n - 1 {
        push_char(&mut out, ')');
    }
    out
}

/// The tracks behind the references.
pub open spec fn deref_tracks(s: Seq<&AnnotatedTrack>) -> Seq<AnnotatedTrack> {
    s.map_values(|t: &AnnotatedTrack| *t)
}

/// The tracks of the given kind, in order.
pub open spec fn kind_tracks(ts: Seq<AnnotatedTrack>, ct: ContentType) -> Seq<AnnotatedTrack>
    decreases ts.len(),
{
    if ts.len() == 0 {
        Seq::empty()
    } else if ts.last().content_type == ct {
        kind_tracks(ts.drop_last(), ct).push(ts.last())
    } else {
        kind_tracks(ts.drop_last(), ct)
    }
}

/// The syllables of the content of the tracks, track after track.
pub open spec fn tracks_syllables(ts: Seq<AnnotatedTrack>) -> Seq<LyricSyllable>
    decreases ts.len(),
{
    if ts.len() == 0 {
        Seq::empty()
    } else {
        tracks_syllables(ts.drop_last()) + crate::types::track_syllables(ts.last().content)
    }
}

/// `r` is the background vocals of the tracks `ts`: nothing without a
/// syllable; else a span with the `x-bg` role from the earliest start to the
/// latest end of their syllables, holding the syllables in brackets (see
/// `track_nodes_ok`), then the tracks' inline annotations (see
/// `inline_nodes_ok`).
pub open spec fn background_ok(r: Option<XmlNode>, ts: Seq<AnnotatedTrack>, options: TtmlGenerationOptions) -> bool {
    let syls = tracks_syllables(ts);
    let m = track_nodes_len(syls, syls.len() as int, options, true) as int;
    let items = tracks_annotation_items(ts);
    if syls.len() == 0 {
        r is None
    } else {
        r matches Some(n) && n matches XmlNode::Element { name, attrs, attr_lines, content: XmlContent::Children(c) }
            && name@ == "span"@ && !attr_lines && attr_views(attrs@) == seq![
            ("ttm:role"@, "x-bg"@),
            ("begin"@, format_time_spec(earliest_start(syls) as nat)),
            ("end"@, format_time_spec(latest_end(syls) as nat)),
        ] && c@.len() >= m && track_nodes_ok(c@.subrange(0, m), syls, syls.len() as int, options, true)
            && inline_nodes_ok(c@.subrange(m, c@.len() as int), items, items.len() as int, options)
    }
}

/// The background vocals of a line as one span with the `x-bg` role,
/// spanning all its syllables, with the syllables in brackets, then their
/// annotations. Nothing when there is no background syllable.
fn write_background_tracks(bg_annotated_tracks: &Vec<&AnnotatedTrack>, options: &TtmlGenerationOptions) -> (r: Option<
    XmlNode,
>)
    ensures
        background_ok(r, deref_tracks(bg_annotated_tracks@), *options),
{
    let ghost ts = deref_tracks(bg_annotated_tracks@);
    let mut all_syls: Vec<&LyricSyllable> = Vec::new();
    let mut t: usize = 0;
    while t < bg_annotated_tracks.len()
        invariant
            t <= bg_annotated_tracks@.len(),
            ts == deref_tracks(bg_annotated_tracks@),
            deref_syllables(all_syls@) == tracks_syllables(ts.take(t as int)),
        decreases bg_annotated_tracks@.len() - t,
    {
        assert(ts.take(t + 1).drop_last() =~= ts.take(t as int));
        let syls = flat_syllables(&bg_annotated_tracks[t].content.words);
        let ghost before = deref_syllables(all_syls@);
        let ghost add = crate::types::track_syllables(bg_annotated_tracks@[t as int].content);
        let mut k: usize = 0;
        while k < syls.len()
            invariant
                k <= syls@.len(),
                syls@.len() == add.len(),
                forall|i: int| 0 <= i < syls@.len() ==> *#[trigger] syls@[i] == add[i],
                deref_syllables(all_syls@) == before + add.take(k as int),
            decreases syls@.len() - k,
        {
            let ghost prev = all_syls@;
            all_syls.push(syls[k]);
            assert(deref_syllables(all_syls@) =~= deref_syllables(prev).push(add[k as int]));
            assert(add.take(k + 1) =~= add.take(k as int).push(add[k as int]));
            assert(deref_syllables(all_syls@) =~= before + add.take(k + 1));
            k = k + 1;
        }
        assert(add.take(add.len() as int) =~= add);
        t = t + 1;
    }
    assert(ts.take(bg_annotated_tracks@.len() as int) =~= ts);
    let ghost syls = tracks_syllables(ts);
    if all_syls.len() == 0 {
        return None;
    }
    let (start_ms, end_ms) = syllables_span(&all_syls);
    let mut attrs: Vec<(String, String)> = Vec::new();
    attrs.push(attr("ttm:role", to_owned_string("x-bg")));
    attrs.push(attr("begin", format_ttml_time(start_ms)));
    attrs.push(attr("end", format_ttml_time(end_ms)));
    proof {
        reveal_strlit("ttm:role");
        reveal_strlit("x-bg");
        reveal_strlit("begin");
        reveal_strlit("end");
        assert(attr_views(attrs@) =~= seq![
            ("ttm:role"@, "x-bg"@),
            ("begin"@, format_time_spec(earliest_start(syls) as nat)),
            ("end"@, format_time_spec(latest_end(syls) as nat)),
        ]);
    }
    let num_syls = all_syls.len();
    let mut children: Vec<XmlNode> = Vec::new();
    let mut idx: usize = 0;
    while idx < num_syls
        invariant
            idx <= num_syls,
            num_syls == all_syls@.len(),
            deref_syllables(all_syls@) == syls,
            track_nodes_ok(children@, syls, idx as int, *options, true),
        decreases num_syls - idx,
    {
        let syl_bg = all_syls[idx];
        assert(*syl_bg == syls[idx as int]);
        let temp_syl = LyricSyllable {
            text: bracketed_text(syl_bg.text.as_str(), idx, num_syls),
            start_ms: syl_bg.start_ms,
            end_ms: syl_bg.end_ms,
            duration_ms: syl_bg.duration_ms,
            ends_with_space: syl_bg.ends_with_space,
        };
        let mut pieces = write_syllable_with_optional_splitting(&temp_syl, options);
        proof {
            let tx = syllable_text_as(syls, idx as int, true);
            assert(temp_syl.text@ == tx);
            lemma_split_spans_fields(
                temp_syl,
                syls[idx as int],
                tokens_of(tx),
                tokens_of(tx).len() as int,
                options.punctuation_weight_milli,
                options.format,
            );
            assert(syllable_spans(temp_syl, *options) == spans_with_text(syls[idx as int], tx, *options));
        }
        let ghost before = children@;
        let ghost added = pieces@;
        children.append(&mut pieces);
        if syl_bg.ends_with_space && idx + 1 < num_syls && !options.format {
            children.push(XmlNode::Text(to_owned_string(" ")));
        }
        proof {
            reveal_strlit(" ");
            let sp = spans_with_text(syls[idx as int], syllable_text_as(syls, idx as int, true), *options);
            let gap = space_after(syls, idx as int, options.format);
            let tail = sp.len() + if gap {
                1int
            } else {
                0int
            };
            assert(children@.subrange(0, children@.len() - tail) =~= before);
            assert(children@.subrange(children@.len() - tail, children@.len() - tail + sp.len()) =~= added);
        }
        idx = idx + 1;
    }
    proof {
        lemma_track_nodes_len(children@, syls, syls.len() as int, *options, true);
    }
    let ghost m = children@.len() as int;
    let ghost spans = children@;
    let mut t2: usize = 0;
    assert(children@.subrange(m, children@.len() as int) =~= Seq::<XmlNode>::empty());
    assert(ts.take(0) =~= Seq::<AnnotatedTrack>::empty());
    while t2 < bg_annotated_tracks.len()
        invariant
            t2 <= bg_annotated_tracks@.len(),
            ts == deref_tracks(bg_annotated_tracks@),
            0 <= m <= children@.len(),
            children@.subrange(0, m) == spans,
            inline_nodes_ok(
                children@.subrange(m, children@.len() as int),
                tracks_annotation_items(ts.take(t2 as int)),
                tracks_annotation_items(ts.take(t2 as int)).len() as int,
                *options,
            ),
        decreases bg_annotated_tracks@.len() - t2,
    {
        let ghost before = children@;
        push_track_annotations(&mut children, bg_annotated_tracks[t2], options);
        proof {
            let x = tracks_annotation_items(ts.take(t2 as int));
            let y = annotation_items(ts[t2 as int]);
            assert(ts.take(t2 + 1).drop_last() =~= ts.take(t2 as int));
            assert(tracks_annotation_items(ts.take(t2 + 1)) == x + y);
            let a = before.subrange(m, before.len() as int);
            let b = children@.subrange(before.len() as int, children@.len() as int);
            lemma_inline_nodes_concat(a, b, x, y, y.len() as int, *options);
            let bl = before.len() as int;
            assert(children@.subrange(0, bl) == before);
            assert forall|i: int| 0 <= i < bl implies #[trigger] children@[i] == before[i] by {
                assert(children@.subrange(0, bl)[i] == children@[i]);
            }
            assert(bl >= m);
            assert(children@.len() >= bl);
            assert forall|i: int| 0 <= i < children@.len() - m implies #[trigger] children@.subrange(
                m,
                children@.len() as int,
            )[i] == (a + b)[i] by {
                if i < bl - m {
                    assert(children@.subrange(0, bl)[m + i] == children@[m + i]);
                    assert(children@[m + i] == before[m + i]);
                } else {
                    assert(b[i - (bl - m)] == children@[m + i]);
                }
            }
            assert(children@.subrange(m, children@.len() as int) =~= a + b);
            assert forall|i: int| 0 <= i < m implies #[trigger] children@.subrange(0, m)[i] == before.subrange(0, m)[i] by {
                assert(children@.subrange(0, bl)[i] == children@[i]);
                assert(children@[i] == before[i]);
            }
            assert(children@.subrange(0, m) =~= before.subrange(0, m));
        }
        t2 = t2 + 1;
    }
    assert(ts.take(bg_annotated_tracks@.len() as int) =~= ts);
    proof {
        reveal_strlit("span");
    }
    Some(element("span", attrs, children))
}

/// The tracks of the line of the given kind.
fn tracks_of_kind(line: &LyricLine, ct: ContentType) -> (r: Vec<&AnnotatedTrack>)
    ensures
        deref_tracks(r@) == kind_tracks(line.tracks@, ct),
{
    let mut r: Vec<&AnnotatedTrack> = Vec::new();
    let mut i: usize = 0;
    while i < line.tracks.len()
        invariant
            i <= line.tracks@.len(),
            deref_tracks(r@) == kind_tracks(line.tracks@.take(i as int), ct),
        decreases line.tracks@.len() - i,
    {
        assert(line.tracks@.take(i + 1).drop_last() =~= line.tracks@.take(i as int));
        let ghost before = r@;
        if line.tracks[i].content_type == ct {
            r.push(&line.tracks[i]);
            assert(deref_tracks(r@) =~= deref_tracks(before).push(line.tracks@[i as int]));
        }
        i = i + 1;
    }
    assert(line.tracks@.take(line.tracks@.len() as int) =~= line.tracks@);
    r
}

/// The number of nodes the content tracks `ts` write (see
/// `content_nodes_ok`).
pub open spec fn content_nodes_len(ts: Seq<AnnotatedTrack>, n: int, options: TtmlGenerationOptions) -> nat
    decreases n,
{
    if n <= 0 {
        0
    } else {
        let syls = crate::types::track_syllables(ts[n - 1].content);
        content_nodes_len(ts, n - 1, options) + track_nodes_len(syls, syls.len() as int, options, false)
    }
}

/// The nodes of the first `n` content tracks `ts` in syllable timing: each
/// track's syllable spans (see `track_nodes_ok`), track after track.
pub open spec fn content_nodes_ok(nodes: Seq<XmlNode>, ts: Seq<AnnotatedTrack>, n: int, options: TtmlGenerationOptions) -> bool
    decreases n,
{
    if n <= 0 {
        nodes.len() == 0
    } else {
        let syls = crate::types::track_syllables(ts[n - 1].content);
        let l = track_nodes_len(syls, syls.len() as int, options, false) as int;
        &&& nodes.len() >= l
        &&& content_nodes_ok(nodes.subrange(0, nodes.len() - l), ts, n - 1, options)
        &&& track_nodes_ok(nodes.subrange(nodes.len() - l, nodes.len() as int), syls, syls.len() as int, options, false)
    }
}

/// The line text written in line timing: the texts of the main tracks'
/// syllables joined (with spaces when formatting).
pub open spec fn line_timed_text(line: LyricLine, options: TtmlGenerationOptions) -> Seq<char> {
    join_with(
        syllable_texts(tracks_syllables(kind_tracks(line.tracks@, ContentType::Main))),
        if options.format {
            " "@
        } else {
            ""@
        },
    )
}

/// The content of the `<p>` of `line`: first the main text: in line timing
/// the normalised line text (see `line_timed_text`) when it is not empty,
/// in syllable timing the main tracks' spans (see `content_nodes_ok`); then,
/// unless Apple's rules put them in the head, the main tracks' inline
/// annotations (see `inline_nodes_ok`); last, in syllable timing, the
/// background vocals (see `background_ok`) when there are some.
pub open spec fn p_content_ok(nodes: Seq<XmlNode>, line: LyricLine, options: TtmlGenerationOptions) -> bool {
    let main = kind_tracks(line.tracks@, ContentType::Main);
    let bgs = kind_tracks(line.tracks@, ContentType::Background);
    let word = options.timing_mode == TtmlTimingMode::Word;
    let t = line_timed_text(line, options);
    let m1: int = if word {
        content_nodes_len(main, main.len() as int, options) as int
    } else if t.len() > 0 {
        1
    } else {
        0
    };
    let rest = nodes.subrange(m1, nodes.len() as int);
    let bg = word && bgs.len() > 0 && !background_ok(None, bgs, options);
    let mid = if bg {
        rest.drop_last()
    } else {
        rest
    };
    &&& nodes.len() >= m1
    &&& word ==> content_nodes_ok(nodes.subrange(0, m1), main, main.len() as int, options)
    &&& !word && t.len() > 0 ==> (nodes[0] matches XmlNode::Text(x) && x@ == normalize_ws(t))
    &&& bg ==> rest.len() > 0 && background_ok(Some(rest.last()), bgs, options)
    &&& options.use_apple_format_rules ==> mid.len() == 0
    &&& !options.use_apple_format_rules ==> inline_nodes_ok(
        mid,
        tracks_annotation_items(main),
        tracks_annotation_items(main).len() as int,
        options,
    )
}

/// The nodes of `content_nodes_ok` are `content_nodes_len` of them.
proof fn lemma_content_nodes_len(nodes: Seq<XmlNode>, ts: Seq<AnnotatedTrack>, n: int, options: TtmlGenerationOptions)
    requires
        n <= ts.len(),
        content_nodes_ok(nodes, ts, n, options),
    ensures
        nodes.len() == content_nodes_len(ts, n, options),
    decreases n,
{
    if n > 0 {
        let syls = crate::types::track_syllables(ts[n - 1].content);
        let l = track_nodes_len(syls, syls.len() as int, options, false) as int;
        lemma_content_nodes_len(nodes.subrange(0, nodes.len() - l), ts, n - 1, options);
        lemma_track_nodes_len(nodes.subrange(nodes.len() - l, nodes.len() as int), syls, syls.len() as int, options, false);
    }
}

/// After the inline annotations of track `t` of `ts` are written at the
/// end of `before` (see `push_track_annotations`), the nodes from `m` on
/// are those of the annotations of the first `t + 1` tracks.
proof fn lemma_annotations_appended(
    before: Seq<XmlNode>,
    after: Seq<XmlNode>,
    m: int,
    ts: Seq<AnnotatedTrack>,
    t: int,
    options: TtmlGenerationOptions,
)
    requires
        0 <= t < ts.len(),
        0 <= m <= before.len(),
        after.len() >= before.len(),
        after.subrange(0, before.len() as int) == before,
        inline_nodes_ok(
            before.subrange(m, before.len() as int),
            tracks_annotation_items(ts.take(t)),
            tracks_annotation_items(ts.take(t)).len() as int,
            options,
        ),
        inline_nodes_ok(
            after.subrange(before.len() as int, after.len() as int),
            annotation_items(ts[t]),
            annotation_items(ts[t]).len() as int,
            options,
        ),
    ensures
        after.subrange(0, m) == before.subrange(0, m),
        inline_nodes_ok(
            after.subrange(m, after.len() as int),
            tracks_annotation_items(ts.take(t + 1)),
            tracks_annotation_items(ts.take(t + 1)).len() as int,
            options,
        ),
{
    let x = tracks_annotation_items(ts.take(t));
    let y = annotation_items(ts[t]);
    assert(ts.take(t + 1).drop_last() =~= ts.take(t));
    assert(tracks_annotation_items(ts.take(t + 1)) == x + y);
    let a = before.subrange(m, before.len() as int);
    let b = after.subrange(before.len() as int, after.len() as int);
    lemma_inline_nodes_concat(a, b, x, y, y.len() as int, options);
    let bl = before.len() as int;
    assert forall|i: int| 0 <= i < after.len() - m implies #[trigger] after.subrange(m, after.len() as int)[i] == (a
        + b)[i] by {
        if i < bl - m {
            assert(after.subrange(0, bl)[m + i] == after[m + i]);
        }
    }
    assert(after.subrange(m, after.len() as int) =~= a + b);
    assert forall|i: int| 0 <= i < m implies #[trigger] after.subrange(0, m)[i] == before.subrange(0, m)[i] by {
        assert(after.subrange(0, bl)[i] == after[i]);
    }
    assert(after.subrange(0, m) =~= before.subrange(0, m));
}

/// The content of a `<p>`: the main text (one normalised text in line
/// timing, spans in syllable timing), the inline annotations of the main
/// tracks (unless Apple's rules put them in the head), and the background
/// vocals (in syllable timing).
fn write_p_content(line: &LyricLine, options: &TtmlGenerationOptions) -> (r: Vec<XmlNode>)
    ensures
        p_content_ok(r@, *line, *options),
{
    let main_content_tracks = tracks_of_kind(line, ContentType::Main);
    let background_annotated_tracks = tracks_of_kind(line, ContentType::Background);
    let ghost main = kind_tracks(line.tracks@, ContentType::Main);
    let ghost bgs = kind_tracks(line.tracks@, ContentType::Background);
    let mut nodes: Vec<XmlNode> = Vec::new();
    if options.timing_mode == TtmlTimingMode::Line {
        let mut syls: Vec<&LyricSyllable> = Vec::new();
        let mut t: usize = 0;
        while t < main_content_tracks.len()
            invariant
                t <= main_content_tracks@.len(),
                main == deref_tracks(main_content_tracks@),
                deref_syllables(syls@) == tracks_syllables(main.take(t as int)),
            decreases main_content_tracks@.len() - t,
        {
            assert(main.take(t + 1).drop_last() =~= main.take(t as int));
            let s = flat_syllables(&main_content_tracks[t].content.words);
            let ghost before = deref_syllables(syls@);
            let ghost add = crate::types::track_syllables(main_content_tracks@[t as int].content);
            let mut k: usize = 0;
            while k < s.len()
                invariant
                    k <= s@.len(),
                    s@.len() == add.len(),
                    forall|i: int| 0 <= i < s@.len() ==> *#[trigger] s@[i] == add[i],
                    deref_syllables(syls@) == before + add.take(k as int),
                decreases s@.len() - k,
            {
                let ghost prev = syls@;
                syls.push(s[k]);
                assert(deref_syllables(syls@) =~= deref_syllables(prev).push(add[k as int]));
                assert(add.take(k + 1) =~= add.take(k as int).push(add[k as int]));
                assert(deref_syllables(syls@) =~= before + add.take(k + 1));
                k = k + 1;
            }
            assert(add.take(add.len() as int) =~= add);
            t = t + 1;
        }
        assert(main.take(main_content_tracks@.len() as int) =~= main);
        let sep = if options.format { " " } else { "" };
        assert(sep@ == if options.format { " "@ } else { ""@ });
        let line_text_to_write = join_syllable_texts(&syls, sep);
        assert(line_text_to_write@ == line_timed_text(*line, *options));
        if !crate::text::text_is_empty(line_text_to_write.as_str()) {
            nodes.push(XmlNode::Text(normalize_text_whitespace(line_text_to_write.as_str())));
            assert(nodes@[0] matches XmlNode::Text(x) && x@ == normalize_ws(line_timed_text(*line, *options)));
        }
    } else {
        let mut t: usize = 0;
        while t < main_content_tracks.len()
            invariant
                t <= main_content_tracks@.len(),
                main == deref_tracks(main_content_tracks@),
                content_nodes_ok(nodes@, main, t as int, *options),
            decreases main_content_tracks@.len() - t,
        {
            let ghost before = nodes@;
            let mut spans = write_track_as_spans(&main_content_tracks[t].content, options);
            let ghost added = spans@;
            proof {
                let syls = crate::types::track_syllables(main[t as int].content);
                lemma_track_nodes_len(added, syls, syls.len() as int, *options, false);
            }
            nodes.append(&mut spans);
            proof {
                let syls = crate::types::track_syllables(main[t as int].content);
                let l = track_nodes_len(syls, syls.len() as int, *options, false) as int;
                assert(nodes@.subrange(0, nodes@.len() - l) =~= before);
                assert(nodes@.subrange(nodes@.len() - l, nodes@.len() as int) =~= added);
            }
            t = t + 1;
        }
        assert(main.take(main_content_tracks@.len() as int) =~= main);
    }
    let ghost m1 = nodes@.len() as int;
    let ghost first = nodes@;
    proof {
        if options.timing_mode == TtmlTimingMode::Word {
            lemma_content_nodes_len(first, main, main.len() as int, *options);
        }
    }
    if !options.use_apple_format_rules {
        let mut t: usize = 0;
        assert(nodes@.subrange(m1, nodes@.len() as int) =~= Seq::<XmlNode>::empty());
        assert(main.take(0) =~= Seq::<AnnotatedTrack>::empty());
        while t < main_content_tracks.len()
            invariant
                t <= main_content_tracks@.len(),
                main == deref_tracks(main_content_tracks@),
                0 <= m1 <= nodes@.len(),
                nodes@.subrange(0, m1) == first,
                inline_nodes_ok(
                    nodes@.subrange(m1, nodes@.len() as int),
                    tracks_annotation_items(main.take(t as int)),
                    tracks_annotation_items(main.take(t as int)).len() as int,
                    *options,
                ),
            decreases main_content_tracks@.len() - t,
        {
            let ghost before = nodes@;
            push_track_annotations(&mut nodes, main_content_tracks[t], options);
            proof {
                lemma_annotations_appended(before, nodes@, m1, main, t as int, *options);
            }
            t = t + 1;
        }
        assert(main.take(main_content_tracks@.len() as int) =~= main);
    }
    let ghost mid_end = nodes@.len() as int;
    let ghost with_mid = nodes@;
    if options.timing_mode == TtmlTimingMode::Word && background_annotated_tracks.len() > 0 {
        match write_background_tracks(&background_annotated_tracks, options) {
            Some(n) => nodes.push(n),
            None => {},
        }
    }
    proof {
        assert(nodes@.subrange(0, m1) =~= with_mid.subrange(0, m1));
        assert(with_mid.subrange(0, m1) == first);
        if m1 > 0 {
            assert(nodes@[0] == nodes@.subrange(0, m1)[0]);
        }
        let rest = nodes@.subrange(m1, nodes@.len() as int);
        let bg = options.timing_mode == TtmlTimingMode::Word && bgs.len() > 0 && !background_ok(None, bgs, *options);
        if bg {
            assert(rest.drop_last() =~= with_mid.subrange(m1, mid_end));
        } else {
            assert(rest =~= with_mid.subrange(m1, mid_end));
        }
    }
    nodes
}

// ---------------------------------------------------------------------------
// Body
// ---------------------------------------------------------------------------

/// The singer id written for a line: its own, else `v1`.
pub open spec fn agent_id_of(line: LyricLine) -> Seq<char> {
    match line.agent {
        Some(a) => a@,
        None => "v1"@,
    }
}

/// `n` is the `<p>` of `line` with key `L{key}`: its times, key and singer,
/// and its content.
pub open spec fn is_p(n: XmlNode, line: LyricLine, key: nat) -> bool {
    n matches XmlNode::Element { name, attrs, attr_lines, content: XmlContent::Children(_) } && name@ == "p"@
        && !attr_lines && attrs@.len() == 4 && attrs@[0].0@ == "begin"@ && attrs@[0].1@ == format_time_spec(
        line.start_ms as nat,
    ) && attrs@[1].0@ == "end"@ && attrs@[1].1@ == format_time_spec(line.end_ms as nat) && attrs@[2].0@
        == "itunes:key"@ && attrs@[2].1@ == "L"@ + crate::text::decimal(key) && attrs@[3].0@ == "ttm:agent"@
        && attrs@[3].1@ == agent_id_of(line)
}

/// The `<p>` of a line with key `L{key}`.
fn write_p(line: &LyricLine, key: u64, options: &TtmlGenerationOptions) -> (r: XmlNode)
    ensures
        is_p(r, *line, key as nat),
{
    proof {
        reveal_strlit("p");
        reveal_strlit("begin");
        reveal_strlit("end");
        reveal_strlit("itunes:key");
        reveal_strlit("ttm:agent");
        reveal_strlit("L");
        reveal_strlit("v1");
    }
    let mut attrs: Vec<(String, String)> = Vec::new();
    attrs.push(attr("begin", format_ttml_time(line.start_ms)));
    attrs.push(attr("end", format_ttml_time(line.end_ms)));
    let mut k = to_owned_string("L");
    push_decimal(&mut k, key);
    attrs.push(attr("itunes:key", k));
    let agent = match &line.agent {
        Some(a) => to_owned_string(a.as_str()),
        None => to_owned_string("v1"),
    };
    attrs.push(attr("ttm:agent", agent));
    element("p", attrs, write_p_content(line, options))
}

/// The latest end of the lines, or `default` for none.
fn lines_end(lines: &Vec<&LyricLine>, default: u64) -> (r: u64)
    ensures
        r == if lines@.len() == 0 {
            default
        } else {
            max_line_end(deref_lines(lines@))
        },
{
    if lines.len() == 0 {
        return default;
    }
    let mut m = lines[0].end_ms;
    let mut i: usize = 1;
    assert(deref_lines(lines@).take(1).drop_last() =~= Seq::<LyricLine>::empty());
    assert(deref_lines(lines@).take(1).last() == *lines@[0]);
    assert(max_line_end(Seq::<LyricLine>::empty()) == 0);
    assert(max_line_end(deref_lines(lines@).take(1)) == m);
    while i < lines.len()
        invariant
            1 <= i <= lines@.len(),
            m == max_line_end(deref_lines(lines@).take(i as int)),
        decreases lines@.len() - i,
    {
        assert(deref_lines(lines@).take(i + 1).drop_last() =~= deref_lines(lines@).take(i as int));
        if lines[i].end_ms > m {
            m = lines[i].end_ms;
        }
        i = i + 1;
    }
    assert(deref_lines(lines@).take(lines@.len() as int) =~= deref_lines(lines@));
    m
}

/// The lines behind the references.
pub open spec fn deref_lines(s: Seq<&LyricLine>) -> Seq<LyricLine> {
    s.map_values(|l: &LyricLine| *l)
}

/// `n` is the `<div>` of the group of lines `group` whose first line has the
/// key `L{base + 1}`: it spans from the first line's start to the latest
/// end, carries the first line's song part when not empty, and holds the
/// lines' `<p>`s (see `is_p`) keyed in order.
pub open spec fn is_div(n: XmlNode, group: Seq<LyricLine>, base: nat) -> bool {
    n matches XmlNode::Element { name, attrs, content: XmlContent::Children(ps), .. } && name@ == "div"@
        && group.len() > 0 && attrs@.len() == (if opt_text(group[0].song_part) matches Some(sp) && sp.len() > 0 {
        3int
    } else {
        2int
    }) && attrs@[0].0@ == "begin"@ && attrs@[0].1@ == format_time_spec(group[0].start_ms as nat) && attrs@[1].0@
        == "end"@ && attrs@[1].1@ == format_time_spec(max_line_end(group) as nat) && (attrs@.len() == 3 ==> attrs@[2].0@
        == "itunes:song-part"@ && Some(attrs@[2].1@) == opt_text(group[0].song_part)) && ps@.len() == group.len()
        && forall|q: int| 0 <= q < ps@.len() ==> #[trigger] is_p(ps@[q], group[q], (base + q + 1) as nat)
}

/// A `<div>` of consecutive lines of one song part: it spans from the first
/// line's start to the latest end, and holds the lines' `<p>`s, keyed on
/// from the counter.
fn write_div(part_lines: &Vec<&LyricLine>, options: &TtmlGenerationOptions, p_key_counter: &mut u64) -> (r: XmlNode)
    requires
        part_lines@.len() > 0,
        *old(p_key_counter) + part_lines@.len() <= u64::MAX,
    ensures
        *final(p_key_counter) == *old(p_key_counter) + part_lines@.len(),
        is_div(r, deref_lines(part_lines@), *old(p_key_counter) as nat),
{
    proof {
        reveal_strlit("begin");
        reveal_strlit("end");
        reveal_strlit("itunes:song-part");
    }
    let div_start_ms = part_lines[0].start_ms;
    let div_end_ms = lines_end(part_lines, div_start_ms);
    let mut attrs: Vec<(String, String)> = Vec::new();
    attrs.push(attr("begin", format_ttml_time(div_start_ms)));
    attrs.push(attr("end", format_ttml_time(div_end_ms)));
    match &part_lines[0].song_part {
        Some(sp) => {
            if !crate::text::text_is_empty(sp.as_str()) {
                attrs.push(attr("itunes:song-part", to_owned_string(sp.as_str())));
            }
        },
        None => {},
    }
    let ghost start = *p_key_counter;
    let mut ps: Vec<XmlNode> = Vec::new();
    let mut i: usize = 0;
    while i < part_lines.len()
        invariant
            i <= part_lines@.len(),
            start + part_lines@.len() <= u64::MAX,
            *p_key_counter == start + i,
            ps@.len() == i,
            forall|k: int| 0 <= k < i ==> #[trigger] is_p(ps@[k], *part_lines@[k], (start + k + 1) as nat),
        decreases part_lines@.len() - i,
    {
        *p_key_counter = *p_key_counter + 1;
        ps.push(write_p(part_lines[i], *p_key_counter, options));
        i = i + 1;
    }
    proof {
        reveal_strlit("div");
        assert(forall|k: int| 0 <= k < part_lines@.len() ==> *part_lines@[k] == #[trigger] deref_lines(part_lines@)[k]);
    }
    element("div", attrs, ps)
}

/// Whether two optional texts are equal.
fn same_opt(a: &Option<String>, b: &Option<String>) -> (r: bool)
    ensures
        r == (opt_text(*a) == opt_text(*b)),
{
    match (a, b) {
        (Some(x), Some(y)) => str_eq(x.as_str(), y.as_str()),
        (None, None) => true,
        _ => false,
    }
}

/// The latest end of all lines.
pub open spec fn max_line_end(lines: Seq<LyricLine>) -> u64
    decreases lines.len(),
{
    if lines.len() == 0 {
        0
    } else {
        max64(max_line_end(lines.drop_last()), lines.last().end_ms)
    }
}

/// The `<body>` over these lines: its duration is the latest end of the
/// lines (written when not zero); it is empty exactly when there are no lines.
pub open spec fn is_body_node(r: XmlNode, lines: Seq<LyricLine>) -> bool {
    r matches XmlNode::Element { name, attrs, content, .. } && name@ == "body"@ && (max_line_end(lines) > 0
        ==> attrs@.len() == 1 && attrs@[0].0@ == "dur"@ && attrs@[0].1@ == format_time_spec(
        max_line_end(lines) as nat,
    )) && (max_line_end(lines) == 0 ==> attrs@.len() == 0) && (lines.len() == 0 <==> content is Empty) && (
    lines.len() > 0 ==> (content matches XmlContent::Children(divs) && divs@.len() == div_groups(lines).len()
        && forall|i: int|
        0 <= i < divs@.len() ==> #[trigger] is_div(divs@[i], div_groups(lines)[i], lines_before(div_groups(lines), i))))
}

/// The lines grouped into `<div>`s: consecutive lines with the same song
/// part share one.
pub open spec fn div_groups(lines: Seq<LyricLine>) -> Seq<Seq<LyricLine>>
    decreases lines.len(),
{
    if lines.len() == 0 {
        Seq::empty()
    } else {
        let g = div_groups(lines.drop_last());
        let l = lines.last();
        if g.len() > 0 && opt_text(g.last().last().song_part) == opt_text(l.song_part) {
            g.update(g.len() - 1, g.last().push(l))
        } else {
            g.push(seq![l])
        }
    }
}

/// The number of lines in the first `i` groups.
pub open spec fn lines_before(groups: Seq<Seq<LyricLine>>, i: int) -> nat
    decreases i,
{
    if i <= 0 || i > groups.len() {
        0
    } else {
        lines_before(groups, i - 1) + groups[i - 1].len()
    }
}

/// Groups that agree on their first `i` members have as many lines in them.
proof fn lemma_lines_before_prefix(a: Seq<Seq<LyricLine>>, b: Seq<Seq<LyricLine>>, i: int)
    requires
        0 <= i <= a.len(),
        i <= b.len(),
        forall|k: int| 0 <= k < i ==> #[trigger] a[k] == b[k],
    ensures
        lines_before(a, i) == lines_before(b, i),
    decreases i,
{
    if i > 0 {
        lemma_lines_before_prefix(a, b, i - 1);
    }
}

/// The groups are not empty, hold all the lines, and the last group ends
/// with the last line.
proof fn lemma_div_groups(lines: Seq<LyricLine>)
    ensures
        lines.len() > 0 ==> div_groups(lines).len() > 0 && div_groups(lines).last().last() == lines.last(),
        forall|i: int| 0 <= i < div_groups(lines).len() ==> #[trigger] div_groups(lines)[i].len() > 0,
        lines_before(div_groups(lines), div_groups(lines).len() as int) == lines.len(),
    decreases lines.len(),
{
    if lines.len() > 0 {
        let g = div_groups(lines.drop_last());
        lemma_div_groups(lines.drop_last());
        let g2 = div_groups(lines);
        if g.len() > 0 && opt_text(g.last().last().song_part) == opt_text(lines.last().song_part) {
            lemma_lines_before_prefix(g, g2, g.len() - 1);
        } else {
            lemma_lines_before_prefix(g, g2, g.len() as int);
        }
    }
}

/// The `<body>`: its duration is the latest end of the lines (written when
/// not zero); consecutive lines of one song part share a `<div>`; without
/// lines it is empty.
pub fn write_ttml_body(lines: &[LyricLine], options: &TtmlGenerationOptions) -> (r: XmlNode)
    ensures
        is_body_node(r, lines@),
{
    proof {
        reveal_strlit("body");
        reveal_strlit("dur");
    }
    let mut body_dur_ms: u64 = 0;
    let mut i: usize = 0;
    while i < lines.len()
        invariant
            i <= lines@.len(),
            body_dur_ms == max_line_end(lines@.take(i as int)),
        decreases lines@.len() - i,
    {
        assert(lines@.take(i + 1).drop_last() =~= lines@.take(i as int));
        if lines[i].end_ms > body_dur_ms {
            body_dur_ms = lines[i].end_ms;
        }
        i = i + 1;
    }
    assert(lines@.take(lines@.len() as int) =~= lines@);
    let mut attrs: Vec<(String, String)> = Vec::new();
    if body_dur_ms > 0 {
        attrs.push(attr("dur", format_ttml_time(body_dur_ms)));
    }
    if lines.len() == 0 {
        return empty_element("body", attrs);
    }
    let mut divs: Vec<XmlNode> = Vec::new();
    let mut p_key_counter: u64 = 0;
    let mut current_div_lines: Vec<&LyricLine> = Vec::new();
    let mut j: usize = 0;
    while j < lines.len()
        invariant
            j <= lines@.len(),
            p_key_counter + current_div_lines@.len() == j,
            ({
                let g = div_groups(lines@.take(j as int));
                &&& j == 0 ==> current_div_lines@.len() == 0 && divs@.len() == 0
                &&& j > 0 ==> {
                    &&& g.len() > 0
                    &&& deref_lines(current_div_lines@) == g.last()
                    &&& divs@.len() == g.len() - 1
                    &&& p_key_counter == lines_before(g, g.len() - 1)
                    &&& forall|i: int| 0 <= i < divs@.len() ==> #[trigger] is_div(divs@[i], g[i], lines_before(g, i))
                }
            }),
        decreases lines@.len() - j,
    {
        let ghost g = div_groups(lines@.take(j as int));
        let ghost g2 = div_groups(lines@.take(j + 1));
        proof {
            assert(lines@.take(j + 1).drop_last() =~= lines@.take(j as int));
            lemma_div_groups(lines@.take(j as int));
            lemma_div_groups(lines@.take(j + 1));
        }
        let current_line = &lines[j];
        if current_div_lines.len() > 0 {
            let prev = current_div_lines[current_div_lines.len() - 1];
            assert(*prev == g.last().last());
            if !same_opt(&prev.song_part, &current_line.song_part) {
                let ghost before = divs@;
                divs.push(write_div(&current_div_lines, options, &mut p_key_counter));
                current_div_lines = Vec::new();
                proof {
                    assert(g2 == g.push(seq![lines@[j as int]]));
                    lemma_lines_before_prefix(g, g2, g.len() as int);
                    assert forall|i: int| 0 <= i < divs@.len() implies #[trigger] is_div(
                        divs@[i],
                        g2[i],
                        lines_before(g2, i),
                    ) by {
                        lemma_lines_before_prefix(g, g2, i);
                        if i < before.len() {
                            assert(divs@[i] == before[i]);
                        }
                    }
                }
            } else {
                proof {
                    assert(g2 == g.update(g.len() - 1, g.last().push(lines@[j as int])));
                    lemma_lines_before_prefix(g, g2, g.len() - 1);
                    assert forall|i: int| 0 <= i < divs@.len() implies #[trigger] is_div(
                        divs@[i],
                        g2[i],
                        lines_before(g2, i),
                    ) by {
                        lemma_lines_before_prefix(g, g2, i);
                    }
                }
            }
        } else {
            proof {
                assert(g2 =~= seq![seq![lines@[j as int]]]);
            }
        }
        current_div_lines.push(current_line);
        assert(deref_lines(current_div_lines@) =~= g2.last());
        j = j + 1;
    }
    proof {
        assert(lines@.take(lines@.len() as int) =~= lines@);
        lemma_div_groups(lines@);
    }
    let ghost g = div_groups(lines@);
    let ghost before = divs@;
    divs.push(write_div(&current_div_lines, options, &mut p_key_counter));
    assert forall|i: int| 0 <= i < divs@.len() implies #[trigger] is_div(divs@[i], g[i], lines_before(g, i)) by {
        if i < before.len() {
            assert(divs@[i] == before[i]);
        }
    }
    XmlNode::Element { name: to_owned_string("body"), attrs, attr_lines: false, content: XmlContent::Children(divs) }
}

// ---------------------------------------------------------------------------
// Head
// ---------------------------------------------------------------------------

/// Whether an optional language sorts before another (no language first,
/// then code-point order).
fn lang_less(a: &Option<String>, b: &Option<String>) -> (r: bool)
    ensures
        r == lang_lt(opt_text(*a), opt_text(*b)),
{
    match (a, b) {
        (None, Some(_)) => true,
        (Some(x), Some(y)) => text_less(x.as_str(), y.as_str()),
        _ => false,
    }
}

/// Whether an optional language sorts before another: no language first,
/// then code-point order.
pub open spec fn lang_lt(a: Option<Seq<char>>, b: Option<Seq<char>>) -> bool {
    match (a, b) {
        (None, Some(_)) => true,
        (Some(x), Some(y)) => text_lt(x, y),
        _ => false,
    }
}

/// The kind of annotation collected into the head.
#[derive(Debug, Clone, Copy, PartialEq, Eq, Structural)]
pub enum HeadTrackKind {
    /// Translations.
    Translation,
    /// Romanisations.
    Romanization,
}

/// A copy of an optional string reference.
fn opt_string(o: Option<&String>) -> (r: Option<String>)
    ensures
        match o {
            Some(s) => r matches Some(t) && t@ == s@,
            None => r is None,
        },
{
    match o {
        Some(s) => Some(to_owned_string(s.as_str())),
        None => None,
    }
}

/// The annotations of the given kind of a track.
pub open spec fn kind_annotations(at: AnnotatedTrack, kind: HeadTrackKind) -> Seq<LyricTrack> {
    match kind {
        HeadTrackKind::Translation => at.translations@,
        HeadTrackKind::Romanization => at.romanizations@,
    }
}

/// Whether an annotation is timed: one of its syllables ends after it
/// starts.
pub open spec fn track_timed(t: LyricTrack) -> bool {
    let syls = crate::types::track_syllables(t);
    exists|k: int| 0 <= k < syls.len() && (#[trigger] syls[k]).end_ms > syls[k].start_ms
}

/// The timed ones of the annotations, in order.
pub open spec fn timed_of(s: Seq<LyricTrack>) -> Seq<LyricTrack>
    decreases s.len(),
{
    if s.len() == 0 {
        Seq::empty()
    } else {
        timed_of(s.drop_last()) + if track_timed(s.last()) {
            seq![s.last()]
        } else {
            Seq::empty()
        }
    }
}

/// The timed annotations of the given kind of the tracks, track after track.
pub open spec fn tracks_timed(ts: Seq<AnnotatedTrack>, kind: HeadTrackKind) -> Seq<LyricTrack>
    decreases ts.len(),
{
    if ts.len() == 0 {
        Seq::empty()
    } else {
        tracks_timed(ts.drop_last(), kind) + timed_of(kind_annotations(ts.last(), kind))
    }
}

/// The annotations, each with the key number `key`.
pub open spec fn keyed(s: Seq<LyricTrack>, key: nat) -> Seq<(nat, LyricTrack)> {
    s.map_values(|t: LyricTrack| (key, t))
}

/// The timed annotations of the given kind of the lines, in document order,
/// each with the key number of its line (its position plus `base`).
pub open spec fn head_entries(lines: Seq<LyricLine>, base: nat, kind: HeadTrackKind) -> Seq<(nat, LyricTrack)>
    decreases lines.len(),
{
    if lines.len() == 0 {
        Seq::empty()
    } else {
        head_entries(lines.drop_last(), base, kind) + keyed(
            tracks_timed(lines.last().tracks@, kind),
            (lines.len() - 1 + base) as nat,
        )
    }
}

/// The language of an entry's annotation.
pub open spec fn entry_lang(e: (nat, LyricTrack)) -> Option<Seq<char>> {
    first_language(e.1.metadata@)
}

/// The entries in the language `l`, in order.
pub open spec fn with_lang(all: Seq<(nat, LyricTrack)>, l: Option<Seq<char>>) -> Seq<(nat, LyricTrack)>
    decreases all.len(),
{
    if all.len() == 0 {
        Seq::empty()
    } else {
        with_lang(all.drop_last(), l) + if entry_lang(all.last()) == l {
            seq![all.last()]
        } else {
            Seq::empty()
        }
    }
}

/// `gs` are the entries `all` grouped by language: one group per language
/// (in language order, see `lang_lt`), holding the entries in that language
/// in order.
pub open spec fn groups_ok(gs: Seq<(Option<Seq<char>>, Seq<(nat, LyricTrack)>)>, all: Seq<(nat, LyricTrack)>) -> bool {
    &&& forall|i: int, j: int| 0 <= i < j < gs.len() ==> lang_lt(#[trigger] gs[i].0, #[trigger] gs[j].0)
    &&& forall|i: int| 0 <= i < gs.len() ==> #[trigger] gs[i].1 == with_lang(all, gs[i].0) && gs[i].1.len() > 0
    &&& forall|k: int| 0 <= k < all.len() ==> exists|i: int| 0 <= i < gs.len() && gs[i].0 == entry_lang(#[trigger] all[k])
}

/// `n` is the `<text>` of an entry: keyed `L{key}`, holding a span per
/// syllable of the annotation.
pub open spec fn head_text_ok(n: XmlNode, e: (nat, LyricTrack)) -> bool {
    let syls = crate::types::track_syllables(e.1);
    n matches XmlNode::Element { name, attrs, content: XmlContent::Children(spans), .. } && name@ == "text"@
        && attr_views(attrs@) == seq![("for"@, "L"@ + crate::text::decimal(e.0))] && spans@.len() == syls.len()
        && forall|k: int|
        0 <= k < syls.len() ==> #[trigger] is_span(spans@[k], syls[k].start_ms as nat, syls[k].end_ms as nat, syls[k].text@)
}

/// `n` is the element `item` of a language group: with the language when
/// it is not empty, holding the `<text>` of each entry.
pub open spec fn head_item_ok(n: XmlNode, g: (Option<Seq<char>>, Seq<(nat, LyricTrack)>), item: Seq<char>) -> bool {
    n matches XmlNode::Element { name, attrs, content: XmlContent::Children(texts), .. } && name@ == item && attr_views(
        attrs@,
    ) == (match g.0 {
        Some(l) => if l.len() > 0 {
            seq![("xml:lang"@, l)]
        } else {
            Seq::empty()
        },
        None => Seq::empty(),
    }) && texts@.len() == g.1.len() && forall|k: int| 0 <= k < g.1.len() ==> #[trigger] head_text_ok(texts@[k], g.1[k])
}

/// `r` is the head's timed annotations of the given kind (see
/// `head_entries`): nothing without any; else the element `container`
/// holding one `item` per language group (see `groups_ok` and
/// `head_item_ok`).
pub open spec fn head_tracks_ok(
    r: Option<XmlNode>,
    lines: Seq<LyricLine>,
    base: nat,
    kind: HeadTrackKind,
    container: Seq<char>,
    item: Seq<char>,
) -> bool {
    let all = head_entries(lines, base, kind);
    if all.len() == 0 {
        r is None
    } else {
        r matches Some(n) && n matches XmlNode::Element { name, attrs, content: XmlContent::Children(items), .. }
            && name@ == container && attrs@.len() == 0 && exists|gs: Seq<(Option<Seq<char>>, Seq<(nat, LyricTrack)>)>|
            #[trigger] groups_ok(gs, all) && items@.len() == gs.len() && forall|g: int|
            0 <= g < gs.len() ==> #[trigger] head_item_ok(items@[g], gs[g], item)
    }
}

/// The groups by their views.
pub open spec fn groups_view(g: Seq<(Option<String>, Vec<(u64, &LyricTrack)>)>) -> Seq<(Option<Seq<char>>, Seq<(nat, LyricTrack)>)> {
    g.map_values(
        |x: (Option<String>, Vec<(u64, &LyricTrack)>)|
            (opt_text(x.0), x.1@.map_values(|e: (u64, &LyricTrack)| (e.0 as nat, *e.1))),
    )
}

/// Language order is a strict total order.
proof fn lemma_lang_lt(a: Option<Seq<char>>, b: Option<Seq<char>>, c: Option<Seq<char>>)
    ensures
        a == b || lang_lt(a, b) || lang_lt(b, a),
        !lang_lt(a, a),
        lang_lt(a, b) && lang_lt(b, c) ==> lang_lt(a, c),
{
    match (a, b) {
        (Some(x), Some(y)) => crate::metadata::lemma_text_lt_total(x, y),
        _ => {},
    }
    match a {
        Some(x) => crate::metadata::lemma_text_lt_irrefl(x),
        None => {},
    }
    match (a, b, c) {
        (Some(x), Some(y), Some(z)) => {
            if text_lt(x, y) && text_lt(y, z) {
                crate::metadata::lemma_text_lt_trans(x, y, z);
            }
        },
        _ => {},
    }
}

/// Entries in other languages than the new one keep their groups.
proof fn lemma_with_lang_push(all: Seq<(nat, LyricTrack)>, e: (nat, LyricTrack), l: Option<Seq<char>>)
    ensures
        with_lang(all.push(e), l) == with_lang(all, l) + if entry_lang(e) == l {
            seq![e]
        } else {
            Seq::empty()
        },
{
    assert(all.push(e).drop_last() =~= all);
}

/// Without an entry in the language `l`, no entry is in it.
proof fn lemma_with_lang_none(all: Seq<(nat, LyricTrack)>, l: Option<Seq<char>>)
    requires
        forall|k: int| 0 <= k < all.len() ==> entry_lang(#[trigger] all[k]) != l,
    ensures
        with_lang(all, l).len() == 0,
    decreases all.len(),
{
    if all.len() > 0 {
        assert(entry_lang(all[all.len() - 1]) != l);
        lemma_with_lang_none(all.drop_last(), l);
    }
}

/// A new entry in the language of group `g` joins that group.
proof fn lemma_groups_join(
    gs: Seq<(Option<Seq<char>>, Seq<(nat, LyricTrack)>)>,
    all: Seq<(nat, LyricTrack)>,
    e: (nat, LyricTrack),
    g: int,
)
    requires
        groups_ok(gs, all),
        0 <= g < gs.len(),
        gs[g].0 == entry_lang(e),
    ensures
        groups_ok(gs.update(g, (gs[g].0, gs[g].1.push(e))), all.push(e)),
{
    let ng = gs.update(g, (gs[g].0, gs[g].1.push(e)));
    let na = all.push(e);
    assert forall|i: int| 0 <= i < ng.len() implies #[trigger] ng[i].1 == with_lang(na, ng[i].0) && ng[i].1.len() > 0 by {
        lemma_with_lang_push(all, e, ng[i].0);
        if i != g {
            assert(gs[i].0 != gs[g].0) by {
                if i < g {
                    assert(lang_lt(gs[i].0, gs[g].0));
                } else {
                    assert(lang_lt(gs[g].0, gs[i].0));
                }
                lemma_lang_lt(gs[g].0, gs[g].0, gs[g].0);
            }
        }
    }
    assert forall|k: int| 0 <= k < na.len() implies exists|i: int| 0 <= i < ng.len() && ng[i].0 == entry_lang(#[trigger] na[k]) by {
        if k < all.len() {
            assert(na[k] == all[k]);
            let i = choose|i: int| 0 <= i < gs.len() && gs[i].0 == entry_lang(all[k]);
            assert(ng[i].0 == gs[i].0);
        } else {
            assert(ng[g].0 == entry_lang(na[k]));
        }
    }
}

/// A new entry in a language no group has gets a group of its own, put at
/// its place in language order.
proof fn lemma_groups_new(
    gs: Seq<(Option<Seq<char>>, Seq<(nat, LyricTrack)>)>,
    all: Seq<(nat, LyricTrack)>,
    e: (nat, LyricTrack),
    pos: int,
)
    requires
        groups_ok(gs, all),
        0 <= pos <= gs.len(),
        forall|i: int| 0 <= i < gs.len() ==> #[trigger] gs[i].0 != entry_lang(e),
        forall|i: int| 0 <= i < pos ==> lang_lt(#[trigger] gs[i].0, entry_lang(e)),
        pos < gs.len() ==> !lang_lt(gs[pos].0, entry_lang(e)),
    ensures
        groups_ok(gs.insert(pos, (entry_lang(e), seq![e])), all.push(e)),
{
    let l = entry_lang(e);
    let ng = gs.insert(pos, (l, seq![e]));
    let na = all.push(e);
    assert forall|k: int| 0 <= k < all.len() implies entry_lang(#[trigger] all[k]) != l by {
        let i = choose|i: int| 0 <= i < gs.len() && gs[i].0 == entry_lang(all[k]);
        assert(gs[i].0 != l);
    }
    lemma_with_lang_none(all, l);
    if pos < gs.len() {
        lemma_lang_lt(l, gs[pos].0, l);
        assert(lang_lt(l, gs[pos].0));
    }
    assert forall|i: int, j: int| 0 <= i < j < ng.len() implies lang_lt(#[trigger] ng[i].0, #[trigger] ng[j].0) by {
        if j < pos {
            assert(ng[i] == gs[i] && ng[j] == gs[j]);
        } else if j == pos {
            assert(ng[i] == gs[i]);
        } else if i == pos {
            assert(ng[j] == gs[j - 1]);
            if j - 1 > pos {
                assert(lang_lt(gs[pos].0, gs[j - 1].0));
                lemma_lang_lt(l, gs[pos].0, gs[j - 1].0);
            }
        } else if i < pos {
            assert(ng[i] == gs[i] && ng[j] == gs[j - 1]);
            if pos < gs.len() {
                assert(lang_lt(l, gs[pos].0));
                if j - 1 > pos {
                    assert(lang_lt(gs[pos].0, gs[j - 1].0));
                    lemma_lang_lt(l, gs[pos].0, gs[j - 1].0);
                }
                lemma_lang_lt(gs[i].0, l, gs[j - 1].0);
            }
        } else {
            assert(ng[i] == gs[i - 1] && ng[j] == gs[j - 1]);
        }
    }
    assert forall|i: int| 0 <= i < ng.len() implies #[trigger] ng[i].1 == with_lang(na, ng[i].0) && ng[i].1.len() > 0 by {
        lemma_with_lang_push(all, e, ng[i].0);
        if i < pos {
            assert(ng[i] == gs[i]);
        } else if i > pos {
            assert(ng[i] == gs[i - 1]);
        } else {
            assert(with_lang(all, l) =~= Seq::<(nat, LyricTrack)>::empty());
            assert(ng[i].1 =~= seq![e]);
        }
    }
    assert forall|k: int| 0 <= k < na.len() implies exists|i: int| 0 <= i < ng.len() && ng[i].0 == entry_lang(#[trigger] na[k]) by {
        if k < all.len() {
            assert(na[k] == all[k]);
            let i = choose|i: int| 0 <= i < gs.len() && gs[i].0 == entry_lang(all[k]);
            if i < pos {
                assert(ng[i] == gs[i]);
            } else {
                assert(ng[i + 1] == gs[i]);
            }
        } else {
            assert(ng[pos].0 == entry_lang(na[k]));
        }
    }
}

/// The position of the group of the language `lang`.
fn find_group(groups: &Vec<(Option<String>, Vec<(u64, &LyricTrack)>)>, lang: &Option<String>) -> (r: Option<usize>)
    ensures
        r matches Some(i) ==> i < groups@.len() && opt_text(groups@[i as int].0) == opt_text(*lang),
        r is None ==> forall|i: int| 0 <= i < groups@.len() ==> opt_text((#[trigger] groups@[i]).0) != opt_text(*lang),
{
    let mut g: usize = 0;
    while g < groups.len()
        invariant
            g <= groups@.len(),
            forall|i: int| 0 <= i < g ==> opt_text((#[trigger] groups@[i]).0) != opt_text(*lang),
        decreases groups@.len() - g,
    {
        if same_opt(&groups[g].0, lang) {
            return Some(g);
        }
        g = g + 1;
    }
    None
}

/// Whether an annotation is timed (see `track_timed`).
fn is_timed_track(track: &LyricTrack) -> (r: bool)
    ensures
        r == track_timed(*track),
{
    let syls = flat_syllables(&track.words);
    let ghost all = crate::types::track_syllables(*track);
    let mut timed = false;
    let mut s: usize = 0;
    while s < syls.len()
        invariant
            s <= syls@.len(),
            syls@.len() == all.len(),
            forall|i: int| 0 <= i < syls@.len() ==> *#[trigger] syls@[i] == all[i],
            timed == exists|k: int| 0 <= k < s && (#[trigger] all[k]).end_ms > all[k].start_ms,
        decreases syls@.len() - s,
    {
        assert(*syls@[s as int] == all[s as int]);
        if syls[s].end_ms > syls[s].start_ms {
            timed = true;
        }
        s = s + 1;
    }
    timed
}

/// The `<text>` of an entry (see `head_text_ok`).
fn head_text(key: u64, track: &LyricTrack) -> (r: XmlNode)
    ensures
        head_text_ok(r, (key as nat, *track)),
{
    let syls = flat_syllables(&track.words);
    let ghost all = crate::types::track_syllables(*track);
    let mut spans: Vec<XmlNode> = Vec::new();
    let mut s: usize = 0;
    while s < syls.len()
        invariant
            s <= syls@.len(),
            syls@.len() == all.len(),
            forall|i: int| 0 <= i < syls@.len() ==> *#[trigger] syls@[i] == all[i],
            spans@.len() == s,
            forall|k: int| 0 <= k < s ==> #[trigger] is_span(spans@[k], all[k].start_ms as nat, all[k].end_ms as nat, all[k].text@),
        decreases syls@.len() - s,
    {
        assert(*syls@[s as int] == all[s as int]);
        spans.push(span_node(syls[s].start_ms, syls[s].end_ms, to_owned_string(syls[s].text.as_str())));
        s = s + 1;
    }
    let mut text_attrs: Vec<(String, String)> = Vec::new();
    text_attrs.push(attr("for", line_key(key)));
    proof {
        reveal_strlit("for");
        reveal_strlit("text");
        assert(attr_views(text_attrs@) =~= seq![("for"@, "L"@ + crate::text::decimal(key as nat))]);
    }
    element("text", text_attrs, spans)
}

/// The timed annotations of the lines, grouped by language (in language
/// order), as `<text for="L{n}">` entries of timed spans in the container
/// element; nothing when no annotation is timed (see `head_tracks_ok`).
fn write_timed_tracks_to_head(
    lines: &[LyricLine],
    p_key_counter_base: u64,
    kind: HeadTrackKind,
    container_tag_name: &str,
    item_tag_name: &str,
) -> (r: Option<XmlNode>)
    requires
        p_key_counter_base <= 1,
    ensures
        head_tracks_ok(r, lines@, p_key_counter_base as nat, kind, container_tag_name@, item_tag_name@),
{
    let ghost base = p_key_counter_base as nat;
    let mut groups: Vec<(Option<String>, Vec<(u64, &LyricTrack)>)> = Vec::new();
    let mut line_idx: usize = 0;
    while line_idx < lines.len()
        invariant
            line_idx <= lines@.len(),
            p_key_counter_base <= 1,
            base == p_key_counter_base,
            groups_ok(groups_view(groups@), head_entries(lines@.take(line_idx as int), base, kind)),
        decreases lines@.len() - line_idx,
    {
        let line = &lines[line_idx];
        let ghost prefix = head_entries(lines@.take(line_idx as int), base, kind);
        let ghost key_n = (line_idx + base) as nat;
        assert(line_idx + p_key_counter_base <= u64::MAX);
        let key: u64 = (line_idx as u64).saturating_add(p_key_counter_base);
        assert(key == key_n);
        let mut t: usize = 0;
        assert(line.tracks@.take(0) =~= Seq::<AnnotatedTrack>::empty());
        assert(keyed(Seq::<LyricTrack>::empty(), key_n) =~= Seq::<(nat, LyricTrack)>::empty());
        assert(prefix + keyed(tracks_timed(line.tracks@.take(0), kind), key_n) =~= prefix);
        while t < line.tracks.len()
            invariant
                t <= line.tracks@.len(),
                line_idx < lines@.len(),
                *line == lines@[line_idx as int],
                key == key_n,
                groups_ok(groups_view(groups@), prefix + keyed(tracks_timed(line.tracks@.take(t as int), kind), key_n)),
            decreases line.tracks@.len() - t,
        {
            let tracks_to_check = match kind {
                HeadTrackKind::Translation => &line.tracks[t].translations,
                HeadTrackKind::Romanization => &line.tracks[t].romanizations,
            };
            let ghost anns = kind_annotations(line.tracks@[t as int], kind);
            assert(tracks_to_check@ == anns);
            let ghost before_t = tracks_timed(line.tracks@.take(t as int), kind);
            assert(line.tracks@.take(t + 1).drop_last() =~= line.tracks@.take(t as int));
            assert(anns.take(0) =~= Seq::<LyricTrack>::empty());
            assert(before_t + timed_of(anns.take(0)) =~= before_t);
            let mut k: usize = 0;
            while k < tracks_to_check.len()
                invariant
                    k <= tracks_to_check@.len(),
                    tracks_to_check@ == anns,
                    key == key_n,
                    groups_ok(groups_view(groups@), prefix + keyed(before_t + timed_of(anns.take(k as int)), key_n)),
                decreases tracks_to_check@.len() - k,
            {
                let track = &tracks_to_check[k];
                let ghost cur = prefix + keyed(before_t + timed_of(anns.take(k as int)), key_n);
                assert(anns.take(k + 1).drop_last() =~= anns.take(k as int));
                assert(anns.take(k + 1).last() == *track);
                if is_timed_track(track) {
                    let ghost e = (key_n, *track);
                    assert(prefix + keyed(before_t + timed_of(anns.take(k + 1)), key_n) =~= cur.push(e));
                    let lang = opt_string(track_language(track));
                    assert(opt_text(lang) == entry_lang(e));
                    let ghost gv = groups_view(groups@);
                    match find_group(&groups, &lang) {
                        Some(g) => {
                            proof {
                                lemma_groups_join(gv, cur, e, g as int);
                            }
                            let ghost old_groups = groups@;
                            let (glang, mut gentries) = groups.remove(g);
                            let ghost before_push = gentries@;
                            gentries.push((key, track));
                            assert(gentries@ == before_push.push((key, track)));
                            assert(gentries@.map_values(|x: (u64, &LyricTrack)| (x.0 as nat, *x.1))
                                =~= before_push.map_values(|x: (u64, &LyricTrack)| (x.0 as nat, *x.1)).push(e));
                            groups.insert(g, (glang, gentries));
                            assert(groups@ =~= old_groups.update(g as int, (old_groups[g as int].0, gentries)));
                            assert(groups_view(groups@) =~= gv.update(g as int, (gv[g as int].0, gv[g as int].1.push(e))));
                        },
                        None => {
                            let mut pos: usize = 0;
                            while pos < groups.len() && lang_less(&groups[pos].0, &lang)
                                invariant
                                    pos <= groups@.len(),
                                    gv == groups_view(groups@),
                                    forall|i: int| 0 <= i < pos ==> lang_lt(#[trigger] gv[i].0, entry_lang(e)),
                                    opt_text(lang) == entry_lang(e),
                                decreases groups@.len() - pos,
                            {
                                pos = pos + 1;
                            }
                            proof {
                                lemma_groups_new(gv, cur, e, pos as int);
                            }
                            let mut entries: Vec<(u64, &LyricTrack)> = Vec::new();
                            entries.push((key, track));
                            let ghost ent = entries@;
                            groups.insert(pos, (lang, entries));
                            assert(ent.map_values(|x: (u64, &LyricTrack)| (x.0 as nat, *x.1)) =~= seq![e]);
                            assert(groups_view(groups@) =~= gv.insert(pos as int, (entry_lang(e), seq![e])));
                        },
                    }
                } else {
                    assert(prefix + keyed(before_t + timed_of(anns.take(k + 1)), key_n) =~= cur);
                }
                k = k + 1;
            }
            assert(anns.take(anns.len() as int) =~= anns);
            assert(before_t + timed_of(anns) == tracks_timed(line.tracks@.take(t + 1), kind));
            t = t + 1;
        }
        assert(line.tracks@.take(line.tracks@.len() as int) =~= line.tracks@);
        assert(lines@.take(line_idx + 1).drop_last() =~= lines@.take(line_idx as int));
        assert(lines@.take(line_idx + 1).last() == *line);
        line_idx = line_idx + 1;
    }
    assert(lines@.take(lines@.len() as int) =~= lines@);
    let ghost all = head_entries(lines@, base, kind);
    let ghost gs = groups_view(groups@);
    if groups.len() == 0 {
        assert(all.len() == 0) by {
            if all.len() > 0 {
                assert(exists|i: int| 0 <= i < gs.len() && gs[i].0 == entry_lang(all[0]));
            }
        }
        return None;
    }
    assert(gs[0].1.len() > 0);
    assert(all.len() > 0) by {
        if all.len() == 0 {
            assert(with_lang(all, gs[0].0).len() == 0);
        }
    }
    let mut items: Vec<XmlNode> = Vec::new();
    let mut g: usize = 0;
    while g < groups.len()
        invariant
            g <= groups@.len(),
            gs == groups_view(groups@),
            items@.len() == g,
            forall|q: int| 0 <= q < g ==> #[trigger] head_item_ok(items@[q], gs[q], item_tag_name@),
        decreases groups@.len() - g,
    {
        let mut item_attrs: Vec<(String, String)> = Vec::new();
        match &groups[g].0 {
            Some(lang_code) => {
                if !crate::text::text_is_empty(lang_code.as_str()) {
                    item_attrs.push(attr("xml:lang", to_owned_string(lang_code.as_str())));
                }
            },
            None => {},
        }
        proof {
            reveal_strlit("xml:lang");
        }
        let entries = &groups[g].1;
        let ghost ev = gs[g as int].1;
        let mut texts_nodes: Vec<XmlNode> = Vec::new();
        let mut e: usize = 0;
        while e < entries.len()
            invariant
                e <= entries@.len(),
                entries@.len() == ev.len(),
                ev == entries@.map_values(|x: (u64, &LyricTrack)| (x.0 as nat, *x.1)),
                texts_nodes@.len() == e,
                forall|q: int| 0 <= q < e ==> #[trigger] head_text_ok(texts_nodes@[q], ev[q]),
            decreases entries@.len() - e,
        {
            let (key, track) = entries[e];
            assert(ev[e as int] == (key as nat, *track));
            texts_nodes.push(head_text(key, track));
            e = e + 1;
        }
        let ghost ia = item_attrs@;
        items.push(element(item_tag_name, item_attrs, texts_nodes));
        proof {
            assert(attr_views(ia) =~= match gs[g as int].0 {
                Some(l) => if l.len() > 0 {
                    seq![("xml:lang"@, l)]
                } else {
                    Seq::empty()
                },
                None => Seq::empty(),
            });
        }
        g = g + 1;
    }
    let r = element(container_tag_name, Vec::new(), items);
    assert(groups_ok(gs, all));
    Some(r)
}

/// The head's entry `e` describes the agent the store holds under its id.
pub open spec fn describes_agent(m: Map<Seq<char>, AgentView>, e: (String, Option<String>, AgentType)) -> bool {
    m.contains_key(e.0@) && m[e.0@] == AgentView { id: e.0@, name: opt_text(e.1), agent_type: e.2 }
}

/// The singers listed in the head: every agent of the store once, sorted by
/// id; with no agent and some lines, the default singer `v1`.
pub open spec fn head_agents(m: Map<Seq<char>, AgentView>, has_lines: bool, s: Seq<(String, Option<String>, AgentType)>) -> bool {
    if (forall|id: Seq<char>| !#[trigger] m.contains_key(id)) && has_lines {
        s.len() == 1 && s[0].0@ == "v1"@ && s[0].1 is None && s[0].2 == AgentType::Person
    } else {
        &&& forall|k: int| 0 <= k < s.len() ==> #[trigger] describes_agent(m, s[k])
        &&& forall|id: Seq<char>| #[trigger] m.contains_key(id) ==> exists|k: int| 0 <= k < s.len() && s[k].0@ == id
        &&& forall|i: int, j: int| 0 <= i < j < s.len() ==> text_lt(#[trigger] s[i].0@, #[trigger] s[j].0@)
    }
}

/// Entries sorted by id, each naming one of the first `i` agents.
#[verifier::opaque]
pub open spec fn entries_ok(s: Seq<(String, Option<String>, AgentType)>, all: Seq<Agent>, i: int, m: Map<Seq<char>, AgentView>) -> bool {
    &&& forall|k: int| 0 <= k < s.len() ==> #[trigger] describes_agent(m, s[k])
    &&& forall|j: int| #![trigger all[j]] 0 <= j < i ==> exists|k: int| 0 <= k < s.len() && #[trigger] s[k].0@ == all[j].id@
    &&& forall|k: int| 0 <= k < s.len() ==> exists|j: int| 0 <= j < i && #[trigger] s[k].0@ == all[j].id@
    &&& forall|p: int, q: int| 0 <= p < q < s.len() ==> text_lt(#[trigger] s[p].0@, #[trigger] s[q].0@)
}

/// Inserting agent `i` at its place keeps the entries sorted and adds it.
#[verifier::spinoff_prover]
proof fn lemma_insert_entry(
    before: Seq<(String, Option<String>, AgentType)>,
    pos: int,
    x: (String, Option<String>, AgentType),
    all: Seq<Agent>,
    i: int,
    m: Map<Seq<char>, AgentView>,
)
    requires
        0 <= i < all.len(),
        0 <= pos <= before.len(),
        entries_ok(before, all, i, m),
        describes_agent(m, x),
        x.0@ == all[i].id@,
        forall|k: int| 0 <= k < pos ==> text_lt(#[trigger] before[k].0@, x.0@),
        pos < before.len() ==> text_lt(x.0@, before[pos].0@),
    ensures
        entries_ok(before.insert(pos, x), all, i + 1, m),
{
    let s = before.insert(pos, x);
    assert(forall|k: int| 0 <= k < before.len() ==> #[trigger] describes_agent(m, before[k])) by {
        reveal(entries_ok);
    }
    assert forall|k: int| 0 <= k < s.len() implies #[trigger] describes_agent(m, s[k]) by {
        if k < pos {
            assert(s[k] == before[k]);
        } else if k > pos {
            assert(s[k] == before[k - 1]);
        }
    }
    assert(forall|p: int, q: int| 0 <= p < q < before.len() ==> text_lt(#[trigger] before[p].0@, #[trigger] before[q].0@)) by {
        reveal(entries_ok);
    }
    lemma_insert_entry_found(before, pos, x, all, i, m);
    lemma_insert_entry_named(before, pos, x, all, i, m);
    lemma_insert_entry_sorted(before, pos, x);
    assert(entries_ok(s, all, i + 1, m)) by {
        reveal(entries_ok);
    }
}

/// After the insertion, each of the first `i + 1` agents has an entry.
proof fn lemma_insert_entry_found(
    before: Seq<(String, Option<String>, AgentType)>,
    pos: int,
    x: (String, Option<String>, AgentType),
    all: Seq<Agent>,
    i: int,
    m: Map<Seq<char>, AgentView>,
)
    requires
        0 <= i < all.len(),
        0 <= pos <= before.len(),
        entries_ok(before, all, i, m),
        x.0@ == all[i].id@,
    ensures
        forall|j: int| #![trigger all[j]] 0 <= j < i + 1 ==> exists|k: int|
            0 <= k < before.insert(pos, x).len() && #[trigger] before.insert(pos, x)[k].0@ == all[j].id@,
{
    reveal(entries_ok);
    let s = before.insert(pos, x);
    assert forall|j: int| #![trigger all[j]] 0 <= j < i + 1 implies exists|k: int| 0 <= k < s.len() && #[trigger] s[k].0@ == all[j].id@ by {
        if j == i {
            assert(s[pos].0@ == all[j].id@);
        } else {
            let k0 = choose|k: int| 0 <= k < before.len() && #[trigger] before[k].0@ == all[j].id@;
            if k0 < pos {
                assert(s[k0] == before[k0]);
            } else {
                assert(s[k0 + 1] == before[k0]);
            }
        }
    }
}

/// After the insertion, each entry names one of the first `i + 1` agents.
proof fn lemma_insert_entry_named(
    before: Seq<(String, Option<String>, AgentType)>,
    pos: int,
    x: (String, Option<String>, AgentType),
    all: Seq<Agent>,
    i: int,
    m: Map<Seq<char>, AgentView>,
)
    requires
        0 <= i < all.len(),
        0 <= pos <= before.len(),
        entries_ok(before, all, i, m),
        x.0@ == all[i].id@,
    ensures
        forall|k: int| 0 <= k < before.insert(pos, x).len() ==> exists|j: int|
            0 <= j < i + 1 && #[trigger] before.insert(pos, x)[k].0@ == all[j].id@,
{
    reveal(entries_ok);
    let s = before.insert(pos, x);
    assert forall|k: int| 0 <= k < s.len() implies exists|j: int| 0 <= j < i + 1 && #[trigger] s[k].0@ == all[j].id@ by {
        if k == pos {
            assert(s[k].0@ == all[i].id@);
        } else if k < pos {
            assert(s[k] == before[k]);
            let j0 = choose|j: int| 0 <= j < i && #[trigger] before[k].0@ == all[j].id@;
            assert(s[k].0@ == all[j0].id@);
        } else {
            assert(s[k] == before[k - 1]);
            let j0 = choose|j: int| 0 <= j < i && #[trigger] before[k - 1].0@ == all[j].id@;
            assert(s[k].0@ == all[j0].id@);
        }
    }
}

/// Inserting at the place of `x` keeps the entries strictly sorted.
proof fn lemma_insert_entry_sorted(
    before: Seq<(String, Option<String>, AgentType)>,
    pos: int,
    x: (String, Option<String>, AgentType),
)
    requires
        0 <= pos <= before.len(),
        forall|p: int, q: int| 0 <= p < q < before.len() ==> text_lt(#[trigger] before[p].0@, #[trigger] before[q].0@),
        forall|k: int| 0 <= k < pos ==> text_lt(#[trigger] before[k].0@, x.0@),
        pos < before.len() ==> text_lt(x.0@, before[pos].0@),
    ensures
        forall|p: int, q: int|
            0 <= p < q < before.insert(pos, x).len() ==> text_lt(
                #[trigger] before.insert(pos, x)[p].0@,
                #[trigger] before.insert(pos, x)[q].0@,
            ),
{
    let s = before.insert(pos, x);
    assert forall|p: int, q: int| 0 <= p < q < s.len() implies text_lt(#[trigger] s[p].0@, #[trigger] s[q].0@) by {
        if q < pos {
            assert(s[p] == before[p] && s[q] == before[q]);
        } else if p > pos {
            assert(s[p] == before[p - 1] && s[q] == before[q - 1]);
        } else if p == pos {
            assert(s[q] == before[q - 1]);
            if q - 1 > pos {
                assert(text_lt(before[pos].0@, before[q - 1].0@));
                crate::metadata::lemma_text_lt_trans(x.0@, before[pos].0@, before[q - 1].0@);
            }
        } else if q == pos {
            assert(s[p] == before[p]);
        } else {
            assert(s[p] == before[p] && s[q] == before[q - 1]);
            assert(text_lt(before[p].0@, x.0@));
            if q - 1 > pos {
                assert(text_lt(before[pos].0@, before[q - 1].0@));
                crate::metadata::lemma_text_lt_trans(x.0@, before[pos].0@, before[q - 1].0@);
            }
            crate::metadata::lemma_text_lt_trans(before[p].0@, x.0@, before[q - 1].0@);
        }
    }
}

/// The singers of the head (see `head_agents`).
fn sorted_agents(agent_store: &AgentStore, has_lines: bool) -> (r: Vec<(String, Option<String>, AgentType)>)
    requires
        agent_store.wf(),
    ensures
        head_agents(agent_store@, has_lines, r@),
{
    let all = agent_store.all_agents();
    let ghost m = agent_store@;
    let mut sorted: Vec<(String, Option<String>, AgentType)> = Vec::new();
    let mut i: usize = 0;
    assert(entries_ok(sorted@, all@, 0, m)) by {
        reveal(entries_ok);
    }
    while i < all.len()
        invariant
            i <= all@.len(),
            m == agent_store@,
            forall|k: int| 0 <= k < all@.len() ==> #[trigger] m.contains_key(all@[k].id@) && m[all@[k].id@] == all@[k]@,
            forall|id: Seq<char>| #[trigger] m.contains_key(id) ==> exists|k: int| 0 <= k < all@.len() && all@[k].id@ == id,
            crate::types::agents_distinct(all@),
            entries_ok(sorted@, all@, i as int, m),
        decreases all@.len() - i,
    {
        let a = &all[i];
        let mut pos: usize = 0;
        while pos < sorted.len() && text_less(sorted[pos].0.as_str(), a.id.as_str())
            invariant
                pos <= sorted@.len(),
                forall|k: int| 0 <= k < pos ==> text_lt(#[trigger] sorted@[k].0@, a.id@),
            decreases sorted@.len() - pos,
        {
            pos = pos + 1;
        }
        let name = match &a.name {
            Some(n) => Some(to_owned_string(n.as_str())),
            None => None,
        };
        let entry = (to_owned_string(a.id.as_str()), name, a.agent_type);
        proof {
            assert(describes_agent(m, entry)) by {
                assert(m.contains_key(all@[i as int].id@) && m[all@[i as int].id@] == all@[i as int]@);
            }
            assert(forall|k: int| 0 <= k < sorted@.len() ==> exists|j: int| 0 <= j < i && #[trigger] sorted@[k].0@ == all@[j].id@) by {
                reveal(entries_ok);
            }
            assert forall|k: int| 0 <= k < sorted@.len() implies #[trigger] sorted@[k].0@ != a.id@ by {
                let j = choose|j: int| 0 <= j < i && #[trigger] sorted@[k].0@ == all@[j].id@;
                assert(all@[j].id@ != all@[i as int].id@);
            }
            if pos < sorted@.len() {
                crate::metadata::lemma_text_lt_total(sorted@[pos as int].0@, a.id@);
                assert(text_lt(a.id@, sorted@[pos as int].0@));
            }
        }
        let ghost before = sorted@;
        sorted.insert(pos, entry);
        proof {
            lemma_insert_entry(before, pos as int, entry, all@, i as int, m);
        }
        i = i + 1;
    }
    assert(i == all@.len());
    assert(forall|k: int| 0 <= k < sorted@.len() ==> #[trigger] describes_agent(m, sorted@[k])) by {
        reveal(entries_ok);
    }
    assert(forall|p: int, q: int| 0 <= p < q < sorted@.len() ==> text_lt(#[trigger] sorted@[p].0@, #[trigger] sorted@[q].0@)) by {
        reveal(entries_ok);
    }
    if sorted.len() == 0 && has_lines {
        proof {
            assert forall|id: Seq<char>| !#[trigger] m.contains_key(id) by {
                reveal(entries_ok);
                if m.contains_key(id) {
                    let k = choose|k: int| 0 <= k < all@.len() && all@[k].id@ == id;
                    assert(all@[k].id@ == id);
                    assert(exists|k2: int| 0 <= k2 < sorted@.len() && #[trigger] sorted@[k2].0@ == all@[k].id@);
                }
            }
        }
        sorted.push((to_owned_string("v1"), None, AgentType::Person));
        return sorted;
    }
    proof {
        assert forall|id: Seq<char>| #[trigger] m.contains_key(id) implies exists|k: int| 0 <= k < sorted@.len() && sorted@[k].0@ == id by {
            reveal(entries_ok);
            let j = choose|j: int| 0 <= j < all@.len() && all@[j].id@ == id;
            assert(all@[j].id@ == id);
            assert(exists|k2: int| 0 <= k2 < sorted@.len() && #[trigger] sorted@[k2].0@ == all@[j].id@);
            let k = choose|k: int| 0 <= k < sorted@.len() && #[trigger] sorted@[k].0@ == all@[j].id@;
            assert(sorted@[k].0@ == id);
        }
        if sorted@.len() > 0 {
            assert(describes_agent(m, sorted@[0]));
            assert(m.contains_key(sorted@[0].0@));
        }
    }
    sorted
}

/// The text of an annotation as one line: its syllable texts joined by
/// spaces.
pub open spec fn untimed_text(t: LyricTrack) -> Seq<char> {
    join_with(syllable_texts(crate::types::track_syllables(t)), " "@)
}

/// Whether a translation is listed line by line in the head: untimed (or
/// of at most one syllable), with a text that is not blank.
pub open spec fn listed_translation(t: LyricTrack) -> bool {
    (!track_timed(t) || crate::types::track_syllables(t).len() <= 1) && trim(untimed_text(t)).len() > 0
}

/// The listed ones of the translations, in order.
pub open spec fn listed_of(s: Seq<LyricTrack>) -> Seq<LyricTrack>
    decreases s.len(),
{
    if s.len() == 0 {
        Seq::empty()
    } else {
        listed_of(s.drop_last()) + if listed_translation(s.last()) {
            seq![s.last()]
        } else {
            Seq::empty()
        }
    }
}

/// The listed translations of the tracks, track after track.
pub open spec fn tracks_listed(ts: Seq<AnnotatedTrack>) -> Seq<LyricTrack>
    decreases ts.len(),
{
    if ts.len() == 0 {
        Seq::empty()
    } else {
        tracks_listed(ts.drop_last()) + listed_of(ts.last().translations@)
    }
}

/// The listed translations of the lines, in document order, each with the
/// number of its line (counted from 1).
pub open spec fn listed_entries(lines: Seq<LyricLine>) -> Seq<(nat, LyricTrack)>
    decreases lines.len(),
{
    if lines.len() == 0 {
        Seq::empty()
    } else {
        listed_entries(lines.drop_last()) + keyed(tracks_listed(lines.last().tracks@), lines.len() as nat)
    }
}

/// `gs` are the entries `all` grouped by language, in some order of the
/// groups: one group per language, holding the entries in that language in
/// order.
pub open spec fn groups_any_ok(gs: Seq<(Option<Seq<char>>, Seq<(nat, LyricTrack)>)>, all: Seq<(nat, LyricTrack)>) -> bool {
    &&& forall|i: int, j: int| 0 <= i < j < gs.len() ==> #[trigger] gs[i].0 != #[trigger] gs[j].0
    &&& forall|i: int| 0 <= i < gs.len() ==> #[trigger] gs[i].1 == with_lang(all, gs[i].0) && gs[i].1.len() > 0
    &&& forall|k: int| 0 <= k < all.len() ==> exists|i: int| 0 <= i < gs.len() && gs[i].0 == entry_lang(#[trigger] all[k])
}

/// The attribute of a group's language, when it is not empty.
pub open spec fn lang_attr(l: Option<Seq<char>>) -> Seq<(Seq<char>, Seq<char>)> {
    match l {
        Some(x) => if x.len() > 0 {
            seq![("xml:lang"@, x)]
        } else {
            Seq::empty()
        },
        None => Seq::empty(),
    }
}

/// `n` is the `<text for="L{n}">` of a listed translation, holding its
/// text with whitespace normalised.
pub open spec fn listed_text_ok(n: XmlNode, e: (nat, LyricTrack)) -> bool {
    n matches XmlNode::Element { name, attrs, content: XmlContent::Text(t), .. } && name@ == "text"@ && attr_views(
        attrs@,
    ) == seq![("for"@, "L"@ + crate::text::decimal(e.0))] && t@ == normalize_ws(untimed_text(e.1))
}

/// `n` is the `<translation type="subtitle">` of a language group.
pub open spec fn listed_item_ok(n: XmlNode, g: (Option<Seq<char>>, Seq<(nat, LyricTrack)>)) -> bool {
    n matches XmlNode::Element { name, attrs, content: XmlContent::Children(texts), .. } && name@ == "translation"@
        && attr_views(attrs@) == seq![("type"@, "subtitle"@)] + lang_attr(g.0) && texts@.len() == g.1.len()
        && forall|k: int| 0 <= k < g.1.len() ==> #[trigger] listed_text_ok(texts@[k], g.1[k])
}

/// `n` is the `<translations>` block of the listed translations `all`.
pub open spec fn listed_block_ok(n: XmlNode, all: Seq<(nat, LyricTrack)>) -> bool {
    n matches XmlNode::Element { name, attrs, content: XmlContent::Children(items), .. } && name@ == "translations"@
        && attrs@.len() == 0 && exists|gs: Seq<(Option<Seq<char>>, Seq<(nat, LyricTrack)>)>|
        #[trigger] groups_any_ok(gs, all) && items@.len() == gs.len() && forall|g: int|
        0 <= g < gs.len() ==> #[trigger] listed_item_ok(items@[g], gs[g])
}

/// The songwriters of the store: each value that is not blank, trimmed.
pub open spec fn songwriter_values(m: Map<KeyView, Seq<Seq<char>>>) -> Seq<Seq<char>> {
    if m.contains_key(KeyView::Songwriter) {
        meta_values_of(m[KeyView::Songwriter])
    } else {
        Seq::empty()
    }
}

/// `n` is the `<songwriters>` block, a `<songwriter>` per name.
pub open spec fn songwriters_ok(n: XmlNode, s: Seq<Seq<char>>) -> bool {
    n matches XmlNode::Element { name, attrs, content: XmlContent::Children(c), .. } && name@ == "songwriters"@
        && attrs@.len() == 0 && c@.len() == s.len() && forall|k: int| 0 <= k < s.len() ==> #[trigger] songwriter_ok(c@[k], s[k])
}

/// `n` is the `<songwriter>` of the name `w`.
pub open spec fn songwriter_ok(n: XmlNode, w: Seq<char>) -> bool {
    n matches XmlNode::Element { name, attrs, content: XmlContent::Text(t), .. } && name@ == "songwriter"@
        && attrs@.len() == 0 && t@ == w
}

/// Whether a track has a translation of more than one syllable.
pub open spec fn track_has_multi(at: AnnotatedTrack) -> bool {
    exists|k: int| 0 <= k < at.translations@.len() && crate::types::track_syllables(#[trigger] at.translations@[k]).len() > 1
}

/// Whether a line has a translation of more than one syllable.
pub open spec fn line_has_multi(l: LyricLine) -> bool {
    exists|t: int| 0 <= t < l.tracks@.len() && #[trigger] track_has_multi(l.tracks@[t])
}

/// Whether a line has a romanisation.
pub open spec fn line_has_romanization(l: LyricLine) -> bool {
    exists|t: int| 0 <= t < l.tracks@.len() && (#[trigger] l.tracks@[t]).romanizations@.len() > 0
}

/// `r` is the `<iTunesMetadata>` of the lines and store: nothing without
/// listed translations, songwriters, translations of several syllables or
/// romanisations; else the element holding, in this order and each only
/// when there is something for it, the listed translations, the
/// songwriters, the timed translations and the timed romanisations (see
/// `head_tracks_ok`).
pub open spec fn itunes_ok(r: Option<XmlNode>, lines: Seq<LyricLine>, m: Map<KeyView, Seq<Seq<char>>>) -> bool {
    let a = listed_entries(lines);
    let s = songwriter_values(m);
    let ht = head_entries(lines, 1, HeadTrackKind::Translation);
    let hr = head_entries(lines, 1, HeadTrackKind::Romanization);
    if a.len() == 0 && s.len() == 0 && !(exists|i: int| 0 <= i < lines.len() && #[trigger] line_has_multi(lines[i]))
        && !(exists|i: int| 0 <= i < lines.len() && #[trigger] line_has_romanization(lines[i])) {
        r is None
    } else {
        let n0: int = if a.len() > 0 { 1 } else { 0 };
        let n1: int = n0 + if s.len() > 0 { 1int } else { 0int };
        let n2: int = n1 + if ht.len() > 0 { 1int } else { 0int };
        let n3: int = n2 + if hr.len() > 0 { 1int } else { 0int };
        r matches Some(n) && n matches XmlNode::Element { name, attrs, content: XmlContent::Children(ch), .. }
            && name@ == "iTunesMetadata"@ && attr_views(attrs@) == seq![("xmlns"@, "http://music.apple.com/lyric-ttml-internal"@)]
            && ch@.len() == n3 && (a.len() > 0 ==> listed_block_ok(ch@[0], a)) && (s.len() > 0 ==> songwriters_ok(
            ch@[n0],
            s,
        )) && (ht.len() > 0 ==> head_tracks_ok(
            Some(ch@[n1]),
            lines,
            1,
            HeadTrackKind::Translation,
            "translations"@,
            "translation"@,
        )) && (hr.len() > 0 ==> head_tracks_ok(
            Some(ch@[n2]),
            lines,
            1,
            HeadTrackKind::Romanization,
            "transliterations"@,
            "transliteration"@,
        ))
    }
}

/// A new entry in the language of group `g` joins that group.
proof fn lemma_groups_any_join(
    gs: Seq<(Option<Seq<char>>, Seq<(nat, LyricTrack)>)>,
    all: Seq<(nat, LyricTrack)>,
    e: (nat, LyricTrack),
    g: int,
)
    requires
        groups_any_ok(gs, all),
        0 <= g < gs.len(),
        gs[g].0 == entry_lang(e),
    ensures
        groups_any_ok(gs.update(g, (gs[g].0, gs[g].1.push(e))), all.push(e)),
{
    let ng = gs.update(g, (gs[g].0, gs[g].1.push(e)));
    let na = all.push(e);
    assert forall|i: int, j: int| 0 <= i < j < ng.len() implies #[trigger] ng[i].0 != #[trigger] ng[j].0 by {
        assert(gs[i].0 != gs[j].0);
    }
    assert forall|i: int| 0 <= i < ng.len() implies #[trigger] ng[i].1 == with_lang(na, ng[i].0) && ng[i].1.len() > 0 by {
        lemma_with_lang_push(all, e, ng[i].0);
        if i < g {
            assert(gs[i].0 != gs[g].0);
        } else if i > g {
            assert(gs[g].0 != gs[i].0);
        }
    }
    assert forall|k: int| 0 <= k < na.len() implies exists|i: int| 0 <= i < ng.len() && ng[i].0 == entry_lang(#[trigger] na[k]) by {
        if k < all.len() {
            assert(na[k] == all[k]);
            let i = choose|i: int| 0 <= i < gs.len() && gs[i].0 == entry_lang(all[k]);
            assert(ng[i].0 == gs[i].0);
        } else {
            assert(ng[g].0 == entry_lang(na[k]));
        }
    }
}

/// A new entry in a language no group has gets a group of its own, last.
proof fn lemma_groups_any_new(gs: Seq<(Option<Seq<char>>, Seq<(nat, LyricTrack)>)>, all: Seq<(nat, LyricTrack)>, e: (nat, LyricTrack))
    requires
        groups_any_ok(gs, all),
        forall|i: int| 0 <= i < gs.len() ==> #[trigger] gs[i].0 != entry_lang(e),
    ensures
        groups_any_ok(gs.push((entry_lang(e), seq![e])), all.push(e)),
{
    let l = entry_lang(e);
    let ng = gs.push((l, seq![e]));
    let na = all.push(e);
    assert forall|k: int| 0 <= k < all.len() implies entry_lang(#[trigger] all[k]) != l by {
        let i = choose|i: int| 0 <= i < gs.len() && gs[i].0 == entry_lang(all[k]);
        assert(gs[i].0 != l);
    }
    lemma_with_lang_none(all, l);
    assert forall|i: int, j: int| 0 <= i < j < ng.len() implies #[trigger] ng[i].0 != #[trigger] ng[j].0 by {
        assert(ng[i] == gs[i]);
        if j < gs.len() {
            assert(ng[j] == gs[j]);
        }
    }
    assert forall|i: int| 0 <= i < ng.len() implies #[trigger] ng[i].1 == with_lang(na, ng[i].0) && ng[i].1.len() > 0 by {
        lemma_with_lang_push(all, e, ng[i].0);
        if i < gs.len() {
            assert(ng[i] == gs[i]);
        } else {
            assert(with_lang(all, l) =~= Seq::<(nat, LyricTrack)>::empty());
            assert(ng[i].1 =~= seq![e]);
        }
    }
    assert forall|k: int| 0 <= k < na.len() implies exists|i: int| 0 <= i < ng.len() && ng[i].0 == entry_lang(#[trigger] na[k]) by {
        if k < all.len() {
            assert(na[k] == all[k]);
            let i = choose|i: int| 0 <= i < gs.len() && gs[i].0 == entry_lang(all[k]);
            assert(ng[i] == gs[i]);
        } else {
            assert(ng[gs.len() as int].0 == entry_lang(na[k]));
        }
    }
}

/// Whether a translation is listed line by line (see `listed_translation`).
fn is_listed_translation(track: &LyricTrack) -> (r: bool)
    ensures
        r == listed_translation(*track),
{
    let syls = flat_syllables(&track.words);
    let ghost all = crate::types::track_syllables(*track);
    assert(deref_syllables(syls@) =~= all);
    let timed = is_timed_track(track);
    if timed && syls.len() > 1 {
        return false;
    }
    let full_text = join_syllable_texts(&syls, " ");
    !is_blank(full_text.as_str())
}

/// The `<text>` of a listed translation (see `listed_text_ok`).
fn listed_text(key: u64, track: &LyricTrack) -> (r: XmlNode)
    ensures
        listed_text_ok(r, (key as nat, *track)),
{
    let syls = flat_syllables(&track.words);
    assert(deref_syllables(syls@) =~= crate::types::track_syllables(*track));
    let full_text = join_syllable_texts(&syls, " ");
    let mut text_attrs: Vec<(String, String)> = Vec::new();
    text_attrs.push(attr("for", line_key(key)));
    proof {
        reveal_strlit("for");
        reveal_strlit("text");
        assert(attr_views(text_attrs@) =~= seq![("for"@, "L"@ + crate::text::decimal(key as nat))]);
    }
    text_element("text", text_attrs, normalize_text_whitespace(full_text.as_str()))
}

/// The listed translations of the lines grouped by language (see
/// `groups_any_ok`), the groups in the order their languages first come.
fn listed_translation_groups<'a>(lines: &'a [LyricLine]) -> (r: Vec<(Option<String>, Vec<(u64, &'a LyricTrack)>)>)
    ensures
        groups_any_ok(groups_view(r@), listed_entries(lines@)),
{
    let mut groups: Vec<(Option<String>, Vec<(u64, &LyricTrack)>)> = Vec::new();
    let mut line_idx: usize = 0;
    while line_idx < lines.len()
        invariant
            line_idx <= lines@.len(),
            groups_any_ok(groups_view(groups@), listed_entries(lines@.take(line_idx as int))),
        decreases lines@.len() - line_idx,
    {
        let line = &lines[line_idx];
        let ghost prefix = listed_entries(lines@.take(line_idx as int));
        let ghost key_n = (line_idx + 1) as nat;
        let key: u64 = (line_idx as u64).saturating_add(1);
        assert(key == key_n);
        let mut t: usize = 0;
        assert(line.tracks@.take(0) =~= Seq::<AnnotatedTrack>::empty());
        assert(keyed(Seq::<LyricTrack>::empty(), key_n) =~= Seq::<(nat, LyricTrack)>::empty());
        assert(prefix + keyed(tracks_listed(line.tracks@.take(0)), key_n) =~= prefix);
        while t < line.tracks.len()
            invariant
                t <= line.tracks@.len(),
                line_idx < lines@.len(),
                *line == lines@[line_idx as int],
                key == key_n,
                groups_any_ok(groups_view(groups@), prefix + keyed(tracks_listed(line.tracks@.take(t as int)), key_n)),
            decreases line.tracks@.len() - t,
        {
            let trans = &line.tracks[t].translations;
            let ghost anns = line.tracks@[t as int].translations@;
            let ghost before_t = tracks_listed(line.tracks@.take(t as int));
            assert(line.tracks@.take(t + 1).drop_last() =~= line.tracks@.take(t as int));
            assert(anns.take(0) =~= Seq::<LyricTrack>::empty());
            assert(before_t + listed_of(anns.take(0)) =~= before_t);
            let mut k: usize = 0;
            while k < trans.len()
                invariant
                    k <= trans@.len(),
                    trans@ == anns,
                    key == key_n,
                    groups_any_ok(groups_view(groups@), prefix + keyed(before_t + listed_of(anns.take(k as int)), key_n)),
                decreases trans@.len() - k,
            {
                let track = &trans[k];
                let ghost cur = prefix + keyed(before_t + listed_of(anns.take(k as int)), key_n);
                assert(anns.take(k + 1).drop_last() =~= anns.take(k as int));
                assert(anns.take(k + 1).last() == *track);
                if is_listed_translation(track) {
                    let ghost e = (key_n, *track);
                    assert(prefix + keyed(before_t + listed_of(anns.take(k + 1)), key_n) =~= cur.push(e));
                    let lang = opt_string(track_language(track));
                    assert(opt_text(lang) == entry_lang(e));
                    let ghost gv = groups_view(groups@);
                    match find_group(&groups, &lang) {
                        Some(g) => {
                            proof {
                                lemma_groups_any_join(gv, cur, e, g as int);
                            }
                            let ghost old_groups = groups@;
                            let (glang, mut gentries) = groups.remove(g);
                            let ghost before_push = gentries@;
                            gentries.push((key, track));
                            assert(gentries@ == before_push.push((key, track)));
                            assert(gentries@.map_values(|x: (u64, &LyricTrack)| (x.0 as nat, *x.1))
                                =~= before_push.map_values(|x: (u64, &LyricTrack)| (x.0 as nat, *x.1)).push(e));
                            groups.insert(g, (glang, gentries));
                            assert(groups@ =~= old_groups.update(g as int, (old_groups[g as int].0, gentries)));
                            assert(groups_view(groups@) =~= gv.update(g as int, (gv[g as int].0, gv[g as int].1.push(e))));
                        },
                        None => {
                            proof {
                                lemma_groups_any_new(gv, cur, e);
                            }
                            let mut entries: Vec<(u64, &LyricTrack)> = Vec::new();
                            entries.push((key, track));
                            let ghost ent = entries@;
                            groups.push((lang, entries));
                            assert(ent.map_values(|x: (u64, &LyricTrack)| (x.0 as nat, *x.1)) =~= seq![e]);
                            assert(groups_view(groups@) =~= gv.push((entry_lang(e), seq![e])));
                        },
                    }
                } else {
                    assert(prefix + keyed(before_t + listed_of(anns.take(k + 1)), key_n) =~= cur);
                }
                k = k + 1;
            }
            assert(anns.take(anns.len() as int) =~= anns);
            assert(before_t + listed_of(anns) == tracks_listed(line.tracks@.take(t + 1)));
            t = t + 1;
        }
        assert(line.tracks@.take(line.tracks@.len() as int) =~= line.tracks@);
        assert(lines@.take(line_idx + 1).drop_last() =~= lines@.take(line_idx as int));
        assert(lines@.take(line_idx + 1).last() == *line);
        line_idx = line_idx + 1;
    }
    assert(lines@.take(lines@.len() as int) =~= lines@);
    groups
}

/// Whether a line has a translation of more than one syllable.
fn any_multi_syllable_translation(lines: &[LyricLine]) -> (r: bool)
    ensures
        r == exists|i: int| 0 <= i < lines@.len() && #[trigger] line_has_multi(lines@[i]),
{
    let mut i: usize = 0;
    while i < lines.len()
        invariant
            i <= lines@.len(),
            forall|j: int| 0 <= j < i ==> !#[trigger] line_has_multi(lines@[j]),
        decreases lines@.len() - i,
    {
        let line = &lines[i];
        let mut t: usize = 0;
        while t < line.tracks.len()
            invariant
                t <= line.tracks@.len(),
                i < lines@.len(),
                *line == lines@[i as int],
                forall|j: int| 0 <= j < t ==> !#[trigger] track_has_multi(line.tracks@[j]),
            decreases line.tracks@.len() - t,
        {
            let trans = &line.tracks[t].translations;
            let mut k: usize = 0;
            while k < trans.len()
                invariant
                    k <= trans@.len(),
                    t < line.tracks@.len(),
                    i < lines@.len(),
                    *line == lines@[i as int],
                    trans@ == line.tracks@[t as int].translations@,
                    forall|j: int| 0 <= j < k ==> crate::types::track_syllables(#[trigger] trans@[j]).len() <= 1,
                decreases trans@.len() - k,
            {
                let syls = flat_syllables(&trans[k].words);
                if syls.len() > 1 {
                    assert(track_has_multi(line.tracks@[t as int]));
                    assert(line_has_multi(lines@[i as int]));
                    return true;
                }
                k = k + 1;
            }
            t = t + 1;
        }
        i = i + 1;
    }
    false
}

/// Whether a line has a romanisation.
fn any_romanization(lines: &[LyricLine]) -> (r: bool)
    ensures
        r == exists|i: int| 0 <= i < lines@.len() && #[trigger] line_has_romanization(lines@[i]),
{
    let mut i: usize = 0;
    while i < lines.len()
        invariant
            i <= lines@.len(),
            forall|j: int| 0 <= j < i ==> !#[trigger] line_has_romanization(lines@[j]),
        decreases lines@.len() - i,
    {
        let line = &lines[i];
        let mut t: usize = 0;
        while t < line.tracks.len()
            invariant
                t <= line.tracks@.len(),
                i < lines@.len(),
                *line == lines@[i as int],
                forall|j: int| 0 <= j < t ==> (#[trigger] line.tracks@[j]).romanizations@.len() == 0,
            decreases line.tracks@.len() - t,
        {
            if line.tracks[t].romanizations.len() > 0 {
                assert(line_has_romanization(lines@[i as int]));
                return true;
            }
            t = t + 1;
        }
        i = i + 1;
    }
    false
}

/// The songwriters of the store (see `songwriter_values`).
fn valid_songwriters(metadata_store: &MetadataStore) -> (r: Vec<String>)
    requires
        metadata_store.wf(),
    ensures
        texts(r@) == songwriter_values(metadata_store@),
{
    let mut out: Vec<String> = Vec::new();
    match metadata_store.get_multiple_values(&CanonicalMetadataKey::Songwriter) {
        Some(values) => {
            let ghost vals = texts(values@);
            let mut k: usize = 0;
            while k < values.len()
                invariant
                    k <= values@.len(),
                    vals == texts(values@),
                    texts(out@) == meta_values_of(vals.take(k as int)),
                decreases values@.len() - k,
            {
                assert(vals.take(k + 1).drop_last() =~= vals.take(k as int));
                assert(vals.take(k + 1).last() == values@[k as int]@);
                if !is_blank(values[k].as_str()) {
                    let ghost before = out@;
                    out.push(trim_string(values[k].as_str()));
                    assert(texts(out@) =~= texts(before).push(trim(vals[k as int])));
                }
                k = k + 1;
            }
            assert(vals.take(vals.len() as int) =~= vals);
        },
        None => {},
    }
    out
}

/// The `<iTunesMetadata>` of Apple's rules: line translations by language,
/// songwriters, and the timed translations and romanisations; nothing
/// when there is none of these (see `itunes_ok`).
fn write_itunes_metadata(metadata_store: &MetadataStore, lines: &[LyricLine]) -> (r: Option<XmlNode>)
    requires
        metadata_store.wf(),
    ensures
        itunes_ok(r, lines@, metadata_store@),
        r matches Some(n) ==> is_itunes_node(n),
{
    proof {
        reveal_strlit("translations");
        reveal_strlit("translation");
        reveal_strlit("type");
        reveal_strlit("subtitle");
        reveal_strlit("xml:lang");
        reveal_strlit("songwriters");
        reveal_strlit("songwriter");
        reveal_strlit("xmlns");
        reveal_strlit("iTunesMetadata");
    }
    let ghost a = listed_entries(lines@);
    let ghost s = songwriter_values(metadata_store@);
    let ghost ht = head_entries(lines@, 1, HeadTrackKind::Translation);
    let ghost hr = head_entries(lines@, 1, HeadTrackKind::Romanization);
    let translations_by_lang = listed_translation_groups(lines);
    let ghost gs = groups_view(translations_by_lang@);
    let valid_songwriters = valid_songwriters(metadata_store);
    let has_timed_translations = any_multi_syllable_translation(lines);
    let has_timed_romanizations = any_romanization(lines);
    assert(translations_by_lang.len() == 0 <==> a.len() == 0) by {
        if translations_by_lang.len() == 0 && a.len() > 0 {
            assert(exists|i: int| 0 <= i < gs.len() && gs[i].0 == entry_lang(a[0]));
        }
        if translations_by_lang.len() > 0 {
            assert(gs[0].1.len() > 0);
            if a.len() == 0 {
                assert(with_lang(a, gs[0].0).len() == 0);
            }
        }
    }
    assert(texts(valid_songwriters@).len() == valid_songwriters@.len());
    if translations_by_lang.len() == 0 && valid_songwriters.len() == 0 && !has_timed_translations
        && !has_timed_romanizations {
        return None;
    }
    let mut children: Vec<XmlNode> = Vec::new();
    if translations_by_lang.len() > 0 {
        let mut trans_nodes: Vec<XmlNode> = Vec::new();
        let mut g: usize = 0;
        while g < translations_by_lang.len()
            invariant
                g <= translations_by_lang@.len(),
                gs == groups_view(translations_by_lang@),
                trans_nodes@.len() == g,
                forall|q: int| 0 <= q < g ==> #[trigger] listed_item_ok(trans_nodes@[q], gs[q]),
            decreases translations_by_lang@.len() - g,
        {
            let mut attrs: Vec<(String, String)> = Vec::new();
            attrs.push(attr("type", to_owned_string("subtitle")));
            match &translations_by_lang[g].0 {
                Some(lang_code) => {
                    if !crate::text::text_is_empty(lang_code.as_str()) {
                        attrs.push(attr("xml:lang", to_owned_string(lang_code.as_str())));
                    }
                },
                None => {},
            }
            let entries = &translations_by_lang[g].1;
            let ghost ev = gs[g as int].1;
            let mut text_nodes: Vec<XmlNode> = Vec::new();
            let mut e: usize = 0;
            while e < entries.len()
                invariant
                    e <= entries@.len(),
                    entries@.len() == ev.len(),
                    ev == entries@.map_values(|x: (u64, &LyricTrack)| (x.0 as nat, *x.1)),
                    text_nodes@.len() == e,
                    forall|q: int| 0 <= q < e ==> #[trigger] listed_text_ok(text_nodes@[q], ev[q]),
                decreases entries@.len() - e,
            {
                let (key, track) = entries[e];
                assert(ev[e as int] == (key as nat, *track));
                text_nodes.push(listed_text(key, track));
                e = e + 1;
            }
            let ghost ia = attrs@;
            trans_nodes.push(element("translation", attrs, text_nodes));
            proof {
                assert(attr_views(ia) =~= seq![("type"@, "subtitle"@)] + lang_attr(gs[g as int].0));
            }
            g = g + 1;
        }
        children.push(element("translations", Vec::new(), trans_nodes));
        proof {
            assert(groups_any_ok(gs, a));
            assert(listed_block_ok(children@[0], a));
        }
    }
    let ghost c0 = children@;
    if valid_songwriters.len() > 0 {
        let mut sw_nodes: Vec<XmlNode> = Vec::new();
        let mut k: usize = 0;
        while k < valid_songwriters.len()
            invariant
                k <= valid_songwriters@.len(),
                texts(valid_songwriters@) == s,
                sw_nodes@.len() == k,
                forall|q: int| 0 <= q < k ==> #[trigger] songwriter_ok(sw_nodes@[q], s[q]),
            decreases valid_songwriters@.len() - k,
        {
            sw_nodes.push(text_element("songwriter", Vec::new(), to_owned_string(valid_songwriters[k].as_str())));
            k = k + 1;
        }
        children.push(element("songwriters", Vec::new(), sw_nodes));
        assert(songwriters_ok(children@[c0.len() as int], s));
    }
    let ghost c1 = children@;
    match write_timed_tracks_to_head(lines, 1, HeadTrackKind::Translation, "translations", "translation") {
        Some(n) => children.push(n),
        None => {},
    }
    let ghost c2 = children@;
    match write_timed_tracks_to_head(lines, 1, HeadTrackKind::Romanization, "transliterations", "transliteration") {
        Some(n) => children.push(n),
        None => {},
    }
    let mut attrs: Vec<(String, String)> = Vec::new();
    attrs.push(attr("xmlns", to_owned_string("http://music.apple.com/lyric-ttml-internal")));
    let ghost av = attrs@;
    let r = element("iTunesMetadata", attrs, children);
    proof {
        assert(attr_views(av) =~= seq![("xmlns"@, "http://music.apple.com/lyric-ttml-internal"@)]);
    }
    Some(r)
}

/// `n` is an `<iTunesMetadata>` element.
pub open spec fn is_itunes_node(n: XmlNode) -> bool {
    n matches XmlNode::Element { name, .. } && name@ == "iTunesMetadata"@
}

/// The non-blank values of a list, trimmed.
pub open spec fn meta_values_of(vals: Seq<Seq<char>>) -> Seq<Seq<char>>
    decreases vals.len(),
{
    if vals.len() == 0 {
        Seq::empty()
    } else {
        let prev = meta_values_of(vals.drop_last());
        if trim(vals.last()).len() > 0 {
            prev.push(trim(vals.last()))
        } else {
            prev
        }
    }
}

/// The `<amll:meta>` entries of key `key` published as `name`: each
/// non-blank value, trimmed.
pub open spec fn meta_entries(m: Map<KeyView, Seq<Seq<char>>>, name: Seq<char>, key: KeyView) -> Seq<(Seq<char>, Seq<char>)> {
    if m.contains_key(key) {
        meta_values_of(m[key]).map_values(|v: Seq<char>| (name, v))
    } else {
        Seq::empty()
    }
}

/// All `<amll:meta>` entries of the head, key by key.
pub open spec fn head_meta_entries(m: Map<KeyView, Seq<Seq<char>>>) -> Seq<(Seq<char>, Seq<char>)> {
    meta_entries(m, "musicName"@, KeyView::Title) + meta_entries(m, "artists"@, KeyView::Artist) + meta_entries(
        m,
        "album"@,
        KeyView::Album,
    ) + meta_entries(m, "isrc"@, KeyView::Isrc) + meta_entries(m, "appleMusicId"@, KeyView::AppleMusicId)
        + meta_entries(m, "ncmMusicId"@, KeyView::NcmMusicId) + meta_entries(m, "spotifyId"@, KeyView::SpotifyId)
        + meta_entries(m, "qqMusicId"@, KeyView::QqMusicId) + meta_entries(
        m,
        "ttmlAuthorGithub"@,
        KeyView::TtmlAuthorGithub,
    ) + meta_entries(m, "ttmlAuthorGithubLogin"@, KeyView::TtmlAuthorGithubLogin)
}

/// `n` is the empty `<amll:meta key=".." value=".."/>` of entry `e`.
pub open spec fn is_meta_node(n: XmlNode, e: (Seq<char>, Seq<char>)) -> bool {
    n matches XmlNode::Element { name, attrs, attr_lines, content: XmlContent::Empty } && name@ == "amll:meta"@
        && !attr_lines && attrs@.len() == 2 && attrs@[0].0@ == "key"@ && attrs@[0].1@ == e.0 && attrs@[1].0@
        == "value"@ && attrs@[1].1@ == e.1
}

/// The nodes from `start` on are the `<amll:meta>` entries `es`.
pub open spec fn meta_nodes_at(nodes: Seq<XmlNode>, start: int, es: Seq<(Seq<char>, Seq<char>)>) -> bool {
    &&& nodes.len() == start + es.len()
    &&& forall|j: int| 0 <= j < es.len() ==> #[trigger] is_meta_node(nodes[start + j], es[j])
}

/// `b` is `a` followed by the `<amll:meta>` entries `es`.
pub open spec fn appended(a: Seq<XmlNode>, b: Seq<XmlNode>, es: Seq<(Seq<char>, Seq<char>)>) -> bool {
    &&& forall|j: int| 0 <= j < a.len() ==> #[trigger] b[j] == a[j]
    &&& meta_nodes_at(b, a.len() as int, es)
}

/// Appending twice appends both lists of entries.
proof fn lemma_appended_twice(
    a: Seq<XmlNode>,
    b: Seq<XmlNode>,
    c: Seq<XmlNode>,
    e1: Seq<(Seq<char>, Seq<char>)>,
    e2: Seq<(Seq<char>, Seq<char>)>,
)
    requires
        appended(a, b, e1),
        appended(b, c, e2),
    ensures
        appended(a, c, e1 + e2),
{
    let es = e1 + e2;
    assert forall|j: int| 0 <= j < es.len() implies #[trigger] is_meta_node(c[a.len() + j], es[j]) by {
        if j < e1.len() {
            assert(is_meta_node(b[a.len() + j], e1[j]));
            assert(c[a.len() + j] == b[a.len() + j]);
        } else {
            assert(is_meta_node(c[b.len() + (j - e1.len())], e2[j - e1.len()]));
            assert(a.len() + j == b.len() + (j - e1.len()));
        }
    }
    assert forall|j: int| 0 <= j < a.len() implies #[trigger] c[j] == a[j] by {
        assert(c[j] == b[j]);
    }
}

/// Appends the `<amll:meta>` entries of a metadata key (see `meta_entries`).
fn write_amll_meta(nodes: &mut Vec<XmlNode>, metadata_store: &MetadataStore, name: &str, key: CanonicalMetadataKey)
    requires
        metadata_store.wf(),
    ensures
        appended(old(nodes)@, final(nodes)@, meta_entries(metadata_store@, name@, key@)),
{
    proof {
        reveal_strlit("amll:meta");
        reveal_strlit("key");
        reveal_strlit("value");
    }
    let ghost start = nodes@.len();
    let ghost old_nodes = nodes@;
    match metadata_store.get_multiple_values(&key) {
        Some(values) => {
            let ghost vals = texts(values@);
            let mut k: usize = 0;
            while k < values.len()
                invariant
                    k <= values@.len(),
                    vals == texts(values@),
                    start == old_nodes.len(),
                    nodes@.len() == start + meta_values_of(vals.take(k as int)).len(),
                    forall|j: int| 0 <= j < start ==> #[trigger] nodes@[j] == old_nodes[j],
                    forall|j: int| 0 <= j < meta_values_of(vals.take(k as int)).len() ==> #[trigger] is_meta_node(
                        nodes@[start + j],
                        (name@, meta_values_of(vals.take(k as int))[j]),
                    ),
                decreases values@.len() - k,
            {
                assert(vals.take(k + 1).drop_last() =~= vals.take(k as int));
                assert(vals.take(k + 1).last() == values@[k as int]@);
                if !is_blank(values[k].as_str()) {
                    let mut attrs: Vec<(String, String)> = Vec::new();
                    attrs.push(attr("key", to_owned_string(name)));
                    attrs.push(attr("value", trim_string(values[k].as_str())));
                    nodes.push(empty_element("amll:meta", attrs));
                }
                k = k + 1;
            }
            assert(vals.take(vals.len() as int) =~= vals);
            proof {
                let es = meta_entries(metadata_store@, name@, key@);
                assert forall|j: int| 0 <= j < es.len() implies #[trigger] is_meta_node(nodes@[start + j], es[j]) by {
                    assert(es[j] == (name@, meta_values_of(vals)[j]));
                }
            }
        },
        None => {},
    }
}

/// `n` is the `<ttm:agent>` of head entry `e`, with its full name inside
/// when it has one.
pub open spec fn is_agent_node(n: XmlNode, e: (String, Option<String>, AgentType)) -> bool {
    &&& n matches XmlNode::Element { name, attrs, attr_lines, content } && name@ == "ttm:agent"@ && !attr_lines
        && attrs@.len() == 2 && attrs@[0].0@ == "type"@ && attrs@[0].1@ == agent_type_text(e.2) && attrs@[1].0@
        == "xml:id"@ && attrs@[1].1@ == e.0@ && match e.1 {
        Some(full) => content matches XmlContent::Children(c) && c@.len() == 1 && is_text_element(
            c@[0],
            "ttm:name"@,
            seq![("type"@, "full"@)],
            full@,
        ),
        None => content is Empty,
    }
}

/// The `type` of an agent in the head.
pub open spec fn agent_type_text(t: AgentType) -> Seq<char> {
    match t {
        AgentType::Person => "person"@,
        AgentType::Group => "group"@,
        AgentType::Other => "other"@,
    }
}

/// The children of the head's `<metadata>`: one `<ttm:agent>` per singer
/// (see `head_agents`), then, with Apple's rules, possibly the
/// `<iTunesMetadata>`, then the `<amll:meta>` entries (see
/// `head_meta_entries`).
pub open spec fn head_metadata(
    md: Seq<XmlNode>,
    m: Map<KeyView, Seq<Seq<char>>>,
    agents: Map<Seq<char>, AgentView>,
    has_lines: bool,
    apple: bool,
) -> bool {
    exists|es: Seq<(String, Option<String>, AgentType)>|
        #[trigger] head_agents(agents, has_lines, es) && (forall|k: int|
            0 <= k < es.len() ==> #[trigger] is_agent_node(md[k], es[k])) && (meta_nodes_at(
            md,
            es.len() as int,
            head_meta_entries(m),
        ) || (apple && es.len() < md.len() && is_itunes_node(md[es.len() as int]) && meta_nodes_at(
            md,
            es.len() + 1int,
            head_meta_entries(m),
        )))
}

/// The `<head>`: one `<metadata>` child holding what `head_metadata`
/// describes.
pub open spec fn is_head_node(
    r: XmlNode,
    m: Map<KeyView, Seq<Seq<char>>>,
    agents: Map<Seq<char>, AgentView>,
    has_lines: bool,
    apple: bool,
) -> bool {
    r matches XmlNode::Element { name, attrs, attr_lines, content: XmlContent::Children(hc) } && name@ == "head"@
        && attrs@.len() == 0 && !attr_lines && hc@.len() == 1 && (hc@[0] matches XmlNode::Element {
        name: mn,
        attrs: ma,
        attr_lines: ml,
        content: XmlContent::Children(md),
    } && mn@ == "metadata"@ && ma@.len() == 0 && !ml && head_metadata(md@, m, agents, has_lines, apple))
}

/// The `<head>`: the singers (sorted by id), Apple's `<iTunesMetadata>` when
/// asked for and not empty, and the metadata as `<amll:meta>` entries (see
/// `head_metadata`).
fn write_ttml_head(
    metadata_store: &MetadataStore,
    lines: &[LyricLine],
    agent_store: &AgentStore,
    options: &TtmlGenerationOptions,
) -> (r: XmlNode)
    requires
        metadata_store.wf(),
        agent_store.wf(),
    ensures
        is_head_node(r, metadata_store@, agent_store@, lines@.len() > 0, options.use_apple_format_rules),
{
    proof {
        reveal_strlit("type");
        reveal_strlit("xml:id");
        reveal_strlit("full");
        reveal_strlit("ttm:agent");
        reveal_strlit("ttm:name");
    }
    let mut children: Vec<XmlNode> = Vec::new();
    let agents = sorted_agents(agent_store, lines.len() > 0);
    let mut i: usize = 0;
    while i < agents.len()
        invariant
            i <= agents@.len(),
            children@.len() == i,
            forall|k: int| 0 <= k < i ==> #[trigger] is_agent_node(children@[k], agents@[k]),
        decreases agents@.len() - i,
    {
        let type_str = match agents[i].2 {
            AgentType::Person => "person",
            AgentType::Group => "group",
            AgentType::Other => "other",
        };
        let mut attrs: Vec<(String, String)> = Vec::new();
        attrs.push(attr("type", to_owned_string(type_str)));
        attrs.push(attr("xml:id", to_owned_string(agents[i].0.as_str())));
        let ghost before = children@;
        match &agents[i].1 {
            Some(name) => {
                let mut name_attrs: Vec<(String, String)> = Vec::new();
                name_attrs.push(attr("type", to_owned_string("full")));
                let mut inner: Vec<XmlNode> = Vec::new();
                inner.push(text_element("ttm:name", name_attrs, to_owned_string(name.as_str())));
                children.push(element("ttm:agent", attrs, inner));
            },
            None => children.push(empty_element("ttm:agent", attrs)),
        }
        assert forall|k: int| 0 <= k < i + 1 implies #[trigger] is_agent_node(children@[k], agents@[k]) by {
            if k < i {
                assert(children@[k] == before[k]);
            }
        }
        i = i + 1;
    }
    let ghost n_agents = children@.len();
    assert(n_agents == agents@.len());
    if options.use_apple_format_rules {
        match write_itunes_metadata(metadata_store, lines) {
            Some(n) => {
                children.push(n);
                assert(is_itunes_node(children@[n_agents as int]));
            },
            None => {},
        }
    }
    assert(children@.len() == n_agents || (children@.len() == n_agents + 1 && options.use_apple_format_rules
        && is_itunes_node(children@[n_agents as int])));
    assert(forall|k: int| 0 <= k < n_agents ==> #[trigger] is_agent_node(children@[k], agents@[k]));
    let ghost n_before_meta = children@.len();
    let ghost pre = children@;
    let ghost m = metadata_store@;
    write_amll_meta(&mut children, metadata_store, "musicName", CanonicalMetadataKey::Title);
    let ghost c1 = children@;
    write_amll_meta(&mut children, metadata_store, "artists", CanonicalMetadataKey::Artist);
    let ghost c2 = children@;
    write_amll_meta(&mut children, metadata_store, "album", CanonicalMetadataKey::Album);
    let ghost c3 = children@;
    write_amll_meta(&mut children, metadata_store, "isrc", CanonicalMetadataKey::Isrc);
    let ghost c4 = children@;
    write_amll_meta(&mut children, metadata_store, "appleMusicId", CanonicalMetadataKey::AppleMusicId);
    let ghost c5 = children@;
    write_amll_meta(&mut children, metadata_store, "ncmMusicId", CanonicalMetadataKey::NcmMusicId);
    let ghost c6 = children@;
    write_amll_meta(&mut children, metadata_store, "spotifyId", CanonicalMetadataKey::SpotifyId);
    let ghost c7 = children@;
    write_amll_meta(&mut children, metadata_store, "qqMusicId", CanonicalMetadataKey::QqMusicId);
    let ghost c8 = children@;
    write_amll_meta(&mut children, metadata_store, "ttmlAuthorGithub", CanonicalMetadataKey::TtmlAuthorGithub);
    let ghost c9 = children@;
    write_amll_meta(
        &mut children,
        metadata_store,
        "ttmlAuthorGithubLogin",
        CanonicalMetadataKey::TtmlAuthorGithubLogin,
    );
    proof {
        lemma_appended_twice(pre, c1, c2, meta_entries(m, "musicName"@, KeyView::Title), meta_entries(m, "artists"@, KeyView::Artist));
        let e2 = meta_entries(m, "musicName"@, KeyView::Title) + meta_entries(m, "artists"@, KeyView::Artist);
        lemma_appended_twice(pre, c2, c3, e2, meta_entries(m, "album"@, KeyView::Album));
        let e3 = e2 + meta_entries(m, "album"@, KeyView::Album);
        lemma_appended_twice(pre, c3, c4, e3, meta_entries(m, "isrc"@, KeyView::Isrc));
        let e4 = e3 + meta_entries(m, "isrc"@, KeyView::Isrc);
        lemma_appended_twice(pre, c4, c5, e4, meta_entries(m, "appleMusicId"@, KeyView::AppleMusicId));
        let e5 = e4 + meta_entries(m, "appleMusicId"@, KeyView::AppleMusicId);
        lemma_appended_twice(pre, c5, c6, e5, meta_entries(m, "ncmMusicId"@, KeyView::NcmMusicId));
        let e6 = e5 + meta_entries(m, "ncmMusicId"@, KeyView::NcmMusicId);
        lemma_appended_twice(pre, c6, c7, e6, meta_entries(m, "spotifyId"@, KeyView::SpotifyId));
        let e7 = e6 + meta_entries(m, "spotifyId"@, KeyView::SpotifyId);
        lemma_appended_twice(pre, c7, c8, e7, meta_entries(m, "qqMusicId"@, KeyView::QqMusicId));
        let e8 = e7 + meta_entries(m, "qqMusicId"@, KeyView::QqMusicId);
        lemma_appended_twice(pre, c8, c9, e8, meta_entries(m, "ttmlAuthorGithub"@, KeyView::TtmlAuthorGithub));
        let e9 = e8 + meta_entries(m, "ttmlAuthorGithub"@, KeyView::TtmlAuthorGithub);
        lemma_appended_twice(pre, c9, children@, e9, meta_entries(m, "ttmlAuthorGithubLogin"@, KeyView::TtmlAuthorGithubLogin));
        assert(e9 + meta_entries(m, "ttmlAuthorGithubLogin"@, KeyView::TtmlAuthorGithubLogin) == head_meta_entries(m));
        let es = agents@;
        assert forall|k: int| 0 <= k < es.len() implies #[trigger] is_agent_node(children@[k], es[k]) by {
            assert(children@[k] == pre[k]);
        }
        if n_before_meta == n_agents + 1 {
            assert(children@[n_agents as int] == pre[n_agents as int]);
            assert(is_itunes_node(children@[es.len() as int]));
        }
        assert(head_agents(agent_store@, lines@.len() > 0, es));
        assert(meta_nodes_at(children@, n_before_meta as int, head_meta_entries(m)));
        assert(head_metadata(children@, m, agent_store@, lines@.len() > 0, options.use_apple_format_rules));
    }
    let mut head_children: Vec<XmlNode> = Vec::new();
    head_children.push(element("metadata", Vec::new(), children));
    element("head", Vec::new(), head_children)
}

// ---------------------------------------------------------------------------
// Document
// ---------------------------------------------------------------------------

/// Whether the metadata has a key published under the AMLL namespace.
pub open spec fn has_amll_key(m: Map<KeyView, Seq<Seq<char>>>) -> bool {
    m.contains_key(KeyView::Title) || m.contains_key(KeyView::Artist) || m.contains_key(KeyView::Album)
        || m.contains_key(KeyView::Isrc) || m.contains_key(KeyView::AppleMusicId) || m.contains_key(
        KeyView::NcmMusicId,
    ) || m.contains_key(KeyView::QqMusicId) || m.contains_key(KeyView::SpotifyId) || m.contains_key(
        KeyView::TtmlAuthorGithub,
    ) || m.contains_key(KeyView::TtmlAuthorGithubLogin)
}

/// An optional text by its view.
pub open spec fn opt_view(o: Option<String>) -> Option<Seq<char>> {
    match o {
        Some(s) => Some(s@),
        None => None,
    }
}

/// Attribute pairs by their views.
pub open spec fn attr_views(a: Seq<(String, String)>) -> Seq<(Seq<char>, Seq<char>)> {
    a.map_values(|p: (String, String)| (p.0@, p.1@))
}

/// The language written on `<tt>`: the one asked for, else the metadata's
/// first language; none when that is empty.
pub open spec fn document_language(asked: Option<Seq<char>>, m: Map<KeyView, Seq<Seq<char>>>) -> Option<
    Seq<char>,
> {
    let l = match asked {
        Some(l) => Some(l),
        None => if m.contains_key(KeyView::Language) && m[KeyView::Language].len() > 0 {
            Some(m[KeyView::Language][0])
        } else {
            None
        },
    };
    match l {
        Some(t) => if t.len() > 0 {
            Some(t)
        } else {
            None
        },
        None => None,
    }
}

/// The attributes of `<tt>`, in order.
pub open spec fn tt_attrs(amll: bool, timing: TtmlTimingMode, lang: Option<Seq<char>>) -> Seq<
    (Seq<char>, Seq<char>),
> {
    seq![("xmlns"@, "http://www.w3.org/ns/ttml"@)] + (if amll {
        seq![("xmlns:amll"@, "http://www.example.com/ns/amll"@)]
    } else {
        Seq::empty()
    }) + seq![
        ("xmlns:itunes"@, "http://music.apple.com/lyric-ttml-internal"@),
        ("xmlns:ttm"@, "http://www.w3.org/ns/ttml#metadata"@),
        ("itunes:timing"@, match timing {
            TtmlTimingMode::Word => "Word"@,
            TtmlTimingMode::Line => "Line"@,
        }),
    ] + match lang {
        Some(l) => seq![("xml:lang"@, l)],
        None => Seq::empty(),
    }
}

/// Whether the metadata has a key published under the AMLL namespace.
fn has_amll_metadata(metadata_store: &MetadataStore) -> (r: bool)
    requires
        metadata_store.wf(),
    ensures
        r == has_amll_key(metadata_store@),
{
    metadata_store.get_multiple_values(&CanonicalMetadataKey::Title).is_some()
        || metadata_store.get_multiple_values(&CanonicalMetadataKey::Artist).is_some()
        || metadata_store.get_multiple_values(&CanonicalMetadataKey::Album).is_some()
        || metadata_store.get_multiple_values(&CanonicalMetadataKey::Isrc).is_some()
        || metadata_store.get_multiple_values(&CanonicalMetadataKey::AppleMusicId).is_some()
        || metadata_store.get_multiple_values(&CanonicalMetadataKey::NcmMusicId).is_some()
        || metadata_store.get_multiple_values(&CanonicalMetadataKey::QqMusicId).is_some()
        || metadata_store.get_multiple_values(&CanonicalMetadataKey::SpotifyId).is_some()
        || metadata_store.get_multiple_values(&CanonicalMetadataKey::TtmlAuthorGithub).is_some()
        || metadata_store.get_multiple_values(&CanonicalMetadataKey::TtmlAuthorGithubLogin).is_some()
}

/// `r` is the document of the lyrics (see `ttml_document`).
pub open spec fn is_ttml_document(
    r: XmlNode,
    lines: Seq<LyricLine>,
    m: Map<KeyView, Seq<Seq<char>>>,
    agents: Map<Seq<char>, AgentView>,
    options: TtmlGenerationOptions,
) -> bool {
    r matches XmlNode::Element { name, attrs, attr_lines, content: XmlContent::Children(c) } && name@ == "tt"@
        && attr_lines && attr_views(attrs@) == tt_attrs(
        has_amll_key(m),
        options.timing_mode,
        document_language(opt_view(options.main_language), m),
    ) && c@.len() == 2 && is_head_node(c@[0], m, agents, lines.len() > 0, options.use_apple_format_rules)
        && is_body_node(c@[1], lines)
}

/// The whole document: `<tt>` with its namespaces (AMLL's when the metadata
/// has an AMLL key), its timing mode and its language (the option, else the
/// metadata's language, when not empty), holding the head and the body.
pub fn ttml_document(
    lines: &[LyricLine],
    metadata_store: &MetadataStore,
    agent_store: &AgentStore,
    options: &TtmlGenerationOptions,
) -> (r: XmlNode)
    requires
        metadata_store.wf(),
        agent_store.wf(),
    ensures
        is_ttml_document(r, lines@, metadata_store@, agent_store@, *options),
{
    let ghost amll = has_amll_key(metadata_store@);
    let ghost lang_view = document_language(opt_view(options.main_language), metadata_store@);
    let mut attrs: Vec<(String, String)> = Vec::new();
    attrs.push(attr("xmlns", to_owned_string("http://www.w3.org/ns/ttml")));
    if has_amll_metadata(metadata_store) {
        attrs.push(attr("xmlns:amll", to_owned_string("http://www.example.com/ns/amll")));
    }
    let ghost head_part = attr_views(attrs@);
    assert(head_part == seq![("xmlns"@, "http://www.w3.org/ns/ttml"@)] + (if amll {
        seq![("xmlns:amll"@, "http://www.example.com/ns/amll"@)]
    } else {
        Seq::<(Seq<char>, Seq<char>)>::empty()
    }));
    attrs.push(attr("xmlns:itunes", to_owned_string("http://music.apple.com/lyric-ttml-internal")));
    attrs.push(attr("xmlns:ttm", to_owned_string("http://www.w3.org/ns/ttml#metadata")));
    let timing = match options.timing_mode {
        TtmlTimingMode::Word => "Word",
        TtmlTimingMode::Line => "Line",
    };
    attrs.push(attr("itunes:timing", to_owned_string(timing)));
    let ghost fixed_part = attr_views(attrs@);
    assert(fixed_part == head_part + seq![
        ("xmlns:itunes"@, "http://music.apple.com/lyric-ttml-internal"@),
        ("xmlns:ttm"@, "http://www.w3.org/ns/ttml#metadata"@),
        ("itunes:timing"@, match options.timing_mode {
            TtmlTimingMode::Word => "Word"@,
            TtmlTimingMode::Line => "Line"@,
        }),
    ]);
    let lang: Option<String> = match &options.main_language {
        Some(l) => Some(to_owned_string(l.as_str())),
        None => match metadata_store.get_single_value(&CanonicalMetadataKey::Language) {
            Some(l) => Some(to_owned_string(l.as_str())),
            None => None,
        },
    };
    match lang {
        Some(l) => {
            if !crate::text::text_is_empty(l.as_str()) {
                attrs.push(attr("xml:lang", l));
            }
        },
        None => {},
    }
    assert(attr_views(attrs@) == fixed_part + match lang_view {
        Some(l) => seq![("xml:lang"@, l)],
        None => Seq::<(Seq<char>, Seq<char>)>::empty(),
    });
    let mut children: Vec<XmlNode> = Vec::new();
    children.push(write_ttml_head(metadata_store, lines, agent_store, options));
    children.push(write_ttml_body(lines, options));
    proof {
        reveal_strlit("tt");
    }
    XmlNode::Element { name: to_owned_string("tt"), attrs, attr_lines: true, content: XmlContent::Children(children) }
}

/// Writes the TTML text of the lyrics (see `ttml_document`), indented when
/// the options ask for it. Writing to memory does not fail; the writer's
/// errors would be returned as `ConvertError::Xml` or `Encoding`.
pub fn generate_ttml(
    lines: &[LyricLine],
    metadata_store: &MetadataStore,
    agent_store: &AgentStore,
    options: &TtmlGenerationOptions,
) -> (r: Result<String, ConvertError>)
    requires
        metadata_store.wf(),
        agent_store.wf(),
    ensures
        r matches Ok(s) && exists|doc: XmlNode| #[trigger] is_ttml_document(
            doc,
            lines@,
            metadata_store@,
            agent_store@,
            *options,
        ) && s@ == xml_rendering(options.format, seq![node_op(doc)]),
{
    let document = ttml_document(lines, metadata_store, agent_store, options);
    let ghost doc = document;
    let mut nodes: Vec<XmlNode> = Vec::new();
    nodes.push(document);
    assert(nodes@.map_values(|n: XmlNode| node_op(n)) =~= seq![node_op(doc)]);
    let mut writer = if options.format { indented_writer() } else { compact_writer() };
    match write_document(&mut writer, &nodes) {
        Ok(()) => {},
        Err(e) => {
            return Err(ConvertError::Xml(e));
        },
    }
    match written_text(writer) {
        Ok(s) => Ok(s),
        Err(e) => Err(ConvertError::Encoding(e)),
    }
}

} // verus!
