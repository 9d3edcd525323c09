//! The LRC-family lyric writer: plain LRC, enhanced LRC and Salt Player
//! lyrics, with translation, romanisation and background-vocal lines.

use vstd::prelude::*;

use crate::lys::nonempty;
use crate::model::{flag, nonempty_words, sat_sub, AuxText, BackgroundLine, LyricLine, Syllable, TTMLResult};
use crate::text::{
    decimal_padded, join_strings, join_with, push_char, push_decimal_padded, push_str, texts, to_owned_string,
};

verus! {

/// The flavour of LRC to write.
#[derive(Debug, Clone, Copy, PartialEq, Eq, Structural)]
pub enum LrcMode {
    /// Line timestamps only.
    Plain,
    /// Enhanced LRC with syllable timestamps.
    Enhanced,
    /// Salt Player lyrics (written as enhanced LRC).
    Spl,
}

/// The brackets of syllable timestamps.
#[derive(Debug, Clone, Copy, PartialEq, Eq, Structural)]
pub enum InlineBracket {
    /// `<mm:ss.mmm>`
    Angle,
    /// `[mm:ss.mmm]`
    Square,
}

/// When plain LRC gets an explicit end timestamp (an empty line).
#[derive(Debug, Clone, Copy, PartialEq, Eq, Structural)]
pub enum EndTimestampMode {
    /// Never.
    Never,
    /// After every line.
    Always,
    /// When the gap to the next line reaches the configured interval.
    Interval,
}

/// The order of the auxiliary lines.
#[derive(Debug, Clone, Copy, PartialEq, Eq, Structural)]
pub enum AuxLineOrder {
    /// Translations, then romanisations.
    TranslationFirst,
    /// Romanisations, then translations.
    RomanizationFirst,
}

impl Default for LrcMode {
    fn default() -> (r: Self)
        ensures
            r == LrcMode::Plain,
    {
        LrcMode::Plain
    }
}

impl Default for InlineBracket {
    fn default() -> (r: Self)
        ensures
            r == InlineBracket::Square,
    {
        InlineBracket::Square
    }
}

impl Default for EndTimestampMode {
    fn default() -> (r: Self)
        ensures
            r == EndTimestampMode::Never,
    {
        EndTimestampMode::Never
    }
}

impl Default for AuxLineOrder {
    fn default() -> (r: Self)
        ensures
            r == AuxLineOrder::TranslationFirst,
    {
        AuxLineOrder::TranslationFirst
    }
}

/// The end-timestamp policy of plain LRC.
#[derive(Debug, Clone, Copy, PartialEq, Eq, Structural)]
pub struct LrcTypeEndTimestampConfig {
    /// When to write the end timestamp.
    pub mode: EndTimestampMode,
    /// The gap in milliseconds that triggers it in `Interval` mode.
    pub interval_gap: u32,
}

impl Default for LrcTypeEndTimestampConfig {
    fn default() -> (r: Self)
        ensures
            r.mode == EndTimestampMode::Interval,
            r.interval_gap == 5000,
    {
        LrcTypeEndTimestampConfig { mode: EndTimestampMode::Interval, interval_gap: 5000 }
    }
}

/// Whether an auxiliary line is written, and whether inline.
#[derive(Debug, Clone, Copy, PartialEq, Eq, Structural)]
pub struct LrcTypeAuxiliaryLineOptions {
    /// Whether the line is written.
    pub enabled: bool,
    /// Whether it is appended to the main line in brackets (plain mode only;
    /// at most one kind is inlined).
    pub inline: bool,
}

impl Default for LrcTypeAuxiliaryLineOptions {
    fn default() -> (r: Self)
        ensures
            !r.enabled,
            !r.inline,
    {
        LrcTypeAuxiliaryLineOptions { enabled: false, inline: false }
    }
}

/// The options of the auxiliary lines.
#[derive(Debug, Clone, Copy, PartialEq, Eq, Structural)]
pub struct LrcTypeAuxiliaryLinesConfig {
    /// The order of translation and romanisation lines.
    pub order: AuxLineOrder,
    /// Translations.
    pub translation: LrcTypeAuxiliaryLineOptions,
    /// Romanisations.
    pub romanization: LrcTypeAuxiliaryLineOptions,
    /// Background vocals.
    pub background_vocal: LrcTypeAuxiliaryLineOptions,
}

impl Default for LrcTypeAuxiliaryLinesConfig {
    fn default() -> (r: Self)
        ensures
            r.order == AuxLineOrder::TranslationFirst,
            !r.translation.enabled && !r.translation.inline,
            !r.romanization.enabled && !r.romanization.inline,
            r.background_vocal.enabled && !r.background_vocal.inline,
    {
        LrcTypeAuxiliaryLinesConfig {
            order: AuxLineOrder::TranslationFirst,
            translation: LrcTypeAuxiliaryLineOptions::default(),
            romanization: LrcTypeAuxiliaryLineOptions::default(),
            background_vocal: LrcTypeAuxiliaryLineOptions { enabled: true, inline: false },
        }
    }
}

/// The options of the LRC writer.
#[derive(Debug, Clone, Copy, PartialEq, Eq, Structural)]
pub struct LrcTypeGeneratorOptions {
    /// The flavour of LRC.
    pub mode: LrcMode,
    /// The brackets of syllable timestamps (enhanced and SPL).
    pub inline_bracket: InlineBracket,
    /// The auxiliary lines.
    pub auxiliary_lines: LrcTypeAuxiliaryLinesConfig,
    /// The explicit end timestamps of plain LRC.
    pub end_timestamp: LrcTypeEndTimestampConfig,
    /// Whether a syllable-timed line omits its leading line timestamp.
    pub skip_line_timestamp: bool,
}

impl Default for LrcTypeGeneratorOptions {
    fn default() -> (r: Self)
        ensures
            r.mode == LrcMode::Plain,
            r.inline_bracket == InlineBracket::Square,
            r.auxiliary_lines.order == AuxLineOrder::TranslationFirst,
            !r.auxiliary_lines.translation.enabled && !r.auxiliary_lines.translation.inline,
            !r.auxiliary_lines.romanization.enabled && !r.auxiliary_lines.romanization.inline,
            r.auxiliary_lines.background_vocal.enabled && !r.auxiliary_lines.background_vocal.inline,
            r.end_timestamp.mode == EndTimestampMode::Interval,
            r.end_timestamp.interval_gap == 5000,
            r.skip_line_timestamp,
    {
        LrcTypeGeneratorOptions {
            mode: LrcMode::Plain,
            inline_bracket: InlineBracket::Square,
            auxiliary_lines: LrcTypeAuxiliaryLinesConfig::default(),
            end_timestamp: LrcTypeEndTimestampConfig::default(),
            skip_line_timestamp: true,
        }
    }
}

// ---------------------------------------------------------------------------
// The output, as mathematical text
// ---------------------------------------------------------------------------

/// `mm:ss.mmm` of a time in milliseconds, in the given brackets.
pub open spec fn lrc_time(ms: u32, bracket: InlineBracket) -> Seq<char> {
    let total_sec = ms / 1000;
    (if bracket == InlineBracket::Angle { "<"@ } else { "["@ }) + decimal_padded((total_sec / 60) as nat, 2) + ":"@
        + decimal_padded((total_sec % 60) as nat, 2) + "."@ + decimal_padded((ms % 1000) as nat, 3) + (
    if bracket == InlineBracket::Angle {
        ">"@
    } else {
        "]"@
    })
}

/// Whether syllable timestamps are written.
pub open spec fn word_mode(mode: LrcMode) -> bool {
    mode == LrcMode::Enhanced || mode == LrcMode::Spl
}

/// Syllable `i` of `len` with its start timestamp (and, for the last, its
/// end timestamp), in brackets at the edges of background vocals.
pub open spec fn lrc_word(w: Syllable, i: int, len: int, is_bgv: bool, bracket: InlineBracket) -> Seq<char> {
    lrc_time(w.start_time, bracket) + (if is_bgv && i == 0 { "("@ } else { Seq::empty() }) + w.text@ + (
    if is_bgv && i == len - 1 {
        ")"@
    } else {
        Seq::empty()
    }) + (if flag(w.ends_with_space) { " "@ } else { Seq::empty() }) + (if i == len - 1 {
        lrc_time(w.end_time, bracket)
    } else {
        Seq::empty()
    })
}

/// Background vocals in syllable-timed LRC keep their syllables in one pair
/// of brackets: each syllable is written as its start timestamp, a text,
/// its trailing space and, for the last, its end timestamp, and the texts
/// of all syllables, in order, concatenate to `(`, every syllable's text,
/// and `)`.
pub proof fn lemma_lrc_background_brackets(ws: Seq<Syllable>, bracket: InlineBracket)
    requires
        ws.len() >= 1,
    ensures
        exists|parts: Seq<Seq<char>>|
            parts.len() == ws.len() && (forall|i: int|
                0 <= i < ws.len() ==> #[trigger] lrc_word(ws[i], i, ws.len() as int, true, bracket) == lrc_time(
                    ws[i].start_time,
                    bracket,
                ) + parts[i] + crate::yrc::trailing_space(ws[i]) + (if i == ws.len() - 1 {
                    lrc_time(ws[i].end_time, bracket)
                } else {
                    Seq::empty()
                })) && crate::tokenize::concat(parts) == "("@ + crate::tokenize::concat(
                Seq::new(ws.len(), |i: int| ws[i].text@),
            ) + ")"@,
{
    let n = ws.len() as int;
    let xs = Seq::new(ws.len(), |i: int| ws[i].text@);
    let parts = Seq::new(
        ws.len(),
        |i: int|
            (if i == 0 { "("@ } else { Seq::<char>::empty() }) + ws[i].text@ + (if i == n - 1 {
                ")"@
            } else {
                Seq::<char>::empty()
            }),
    );
    assert forall|i: int| 0 <= i < ws.len() implies #[trigger] lrc_word(ws[i], i, n, true, bracket) == lrc_time(
        ws[i].start_time,
        bracket,
    ) + parts[i] + crate::yrc::trailing_space(ws[i]) + (if i == n - 1 {
        lrc_time(ws[i].end_time, bracket)
    } else {
        Seq::empty()
    }) by {
        assert(lrc_word(ws[i], i, n, true, bracket) =~= lrc_time(ws[i].start_time, bracket) + parts[i]
            + crate::yrc::trailing_space(ws[i]) + (if i == n - 1 {
            lrc_time(ws[i].end_time, bracket)
        } else {
            Seq::empty()
        }));
    }
    crate::tokenize::lemma_concat_enclosed(parts, xs, "("@, ")"@);
}

/// The first `n` syllables of `ws`.
pub open spec fn lrc_words(ws: Seq<Syllable>, n: int, is_bgv: bool, bracket: InlineBracket) -> Seq<char>
    decreases n,
{
    if n <= 0 {
        Seq::empty()
    } else {
        lrc_words(ws, n - 1, is_bgv, bracket) + lrc_word(ws[n - 1], n - 1, ws.len() as int, is_bgv, bracket)
    }
}

/// One rendered line: syllable by syllable in enhanced and SPL mode when
/// there are syllables, else the line timestamp and the text (the override
/// text if given), followed in enhanced and SPL mode by the end timestamp.
#[verifier::opaque]
pub open spec fn render_item(
    o: LrcTypeGeneratorOptions,
    start: u32,
    end: u32,
    original: Seq<char>,
    words: Option<Seq<Syllable>>,
    override_text: Option<Seq<char>>,
    is_bgv: bool,
) -> Seq<char> {
    let tag = lrc_time(start, InlineBracket::Square);
    if word_mode(o.mode) && words is Some && words.unwrap().len() > 0 {
        let ws = words.unwrap();
        (if !o.skip_line_timestamp { tag } else { Seq::empty() }) + lrc_words(
            ws,
            ws.len() as int,
            is_bgv,
            o.inline_bracket,
        )
    } else {
        let t = match override_text {
            Some(x) => x,
            None => original,
        };
        tag + (if is_bgv { "("@ + t + ")"@ } else { t }) + (if word_mode(o.mode) {
            lrc_time(end, InlineBracket::Square)
        } else {
            Seq::empty()
        })
    }
}

/// `target` with `content` appended in brackets.
pub open spec fn inline_appended(target: Seq<char>, content: Seq<char>) -> Seq<char> {
    if target.len() == 0 {
        "("@ + content + ")"@
    } else {
        target + " ("@ + content + ")"@
    }
}

/// The texts of optional auxiliary lines.
pub open spec fn aux_texts(o: Option<Vec<AuxText>>) -> Seq<Seq<char>> {
    match o {
        Some(v) => v@.map_values(|a: AuxText| a.text@),
        None => Seq::empty(),
    }
}

/// Auxiliary texts `a` merged with those of inlined background vocals `b`:
/// each of `b` in brackets after the one of `a` at its position, or alone.
pub open spec fn merged(a: Seq<Seq<char>>, b: Seq<Seq<char>>) -> Seq<Seq<char>> {
    Seq::new(
        if a.len() >= b.len() { a.len() } else { b.len() },
        |i: int|
            if i < a.len() {
                if i < b.len() {
                    a[i] + " ("@ + b[i] + ")"@
                } else {
                    a[i]
                }
            } else {
                "("@ + b[i] + ")"@
            },
    )
}

/// The explicit end-timestamp line of plain LRC, if one is due.
pub open spec fn end_stamp(o: LrcTypeGeneratorOptions, line: LyricLine, next: Option<LyricLine>) -> Seq<Seq<char>> {
    let gap: nat = match next {
        Some(n) => sat_sub(n.start_time, line.end_time),
        None => u32::MAX as nat,
    };
    if o.mode == LrcMode::Plain && o.end_timestamp.mode != EndTimestampMode::Never && (o.end_timestamp.mode
        == EndTimestampMode::Always || (o.end_timestamp.mode == EndTimestampMode::Interval && gap
        > o.end_timestamp.interval_gap)) {
        seq![lrc_time(line.end_time, InlineBracket::Square)]
    } else {
        Seq::empty()
    }
}

/// What inlining leaves of one line: the main text, the translation and
/// romanisation lines still to write, and whether the background vocals
/// still get a line of their own.
pub struct InlinedLine {
    pub main: Seq<char>,
    pub trans: Seq<Seq<char>>,
    pub roma: Seq<Seq<char>>,
    pub bg_line: bool,
}

/// Inlining (plain mode only) of the first translation, else the first
/// romanisation, else the background vocals with their annotations merged.
#[verifier::opaque]
pub open spec fn inlined(o: LrcTypeGeneratorOptions, line: LyricLine) -> InlinedLine {
    let aux = o.auxiliary_lines;
    let plain = o.mode == LrcMode::Plain;
    let trans_inline = plain && aux.translation.inline;
    let roma_inline = plain && !trans_inline && aux.romanization.inline;
    let bgv_inline = plain && !trans_inline && !roma_inline && aux.background_vocal.inline;
    let trans0 = if aux.translation.enabled { aux_texts(line.translations) } else { Seq::empty() };
    let roma0 = if aux.romanization.enabled { aux_texts(line.romanizations) } else { Seq::empty() };
    let has_bg = aux.background_vocal.enabled && line.background_vocal is Some;
    if trans_inline && trans0.len() > 0 {
        InlinedLine { main: inline_appended(line.text@, trans0[0]), trans: trans0.drop_first(), roma: roma0, bg_line: has_bg }
    } else if roma_inline && roma0.len() > 0 {
        InlinedLine { main: inline_appended(line.text@, roma0[0]), trans: trans0, roma: roma0.drop_first(), bg_line: has_bg }
    } else if bgv_inline && has_bg {
        let b = line.background_vocal.unwrap();
        InlinedLine {
            main: inline_appended(line.text@, b.text@),
            trans: if aux.translation.enabled && b.translations is Some {
                merged(trans0, aux_texts(b.translations))
            } else {
                trans0
            },
            roma: if aux.romanization.enabled && b.romanizations is Some {
                merged(roma0, aux_texts(b.romanizations))
            } else {
                roma0
            },
            bg_line: false,
        }
    } else {
        InlinedLine { main: line.text@, trans: trans0, roma: roma0, bg_line: has_bg }
    }
}

/// Each text preceded by `tag`.
pub open spec fn tagged(tag: Seq<char>, ts: Seq<Seq<char>>) -> Seq<Seq<char>> {
    ts.map_values(|t: Seq<char>| tag + t)
}

/// The output lines of one lyric line: the main line, the background
/// vocals, the auxiliary lines under the line's timestamp, and the end
/// timestamp.
pub open spec fn single_line_output(o: LrcTypeGeneratorOptions, line: LyricLine, next: Option<LyricLine>) -> Seq<
    Seq<char>,
> {
    let il = inlined(o, line);
    let main = render_item(o, line.start_time, line.end_time, line.text@, nonempty_words(line.words), Some(il.main), false);
    let bg = if il.bg_line {
        let b = line.background_vocal.unwrap();
        seq![render_item(o, b.start_time, b.end_time, b.text@, nonempty_words(b.words), None, true)]
    } else {
        Seq::empty()
    };
    let aux = if o.auxiliary_lines.order == AuxLineOrder::TranslationFirst {
        il.trans + il.roma
    } else {
        il.roma + il.trans
    };
    seq![main] + bg + tagged(lrc_time(line.start_time, InlineBracket::Square), aux) + end_stamp(o, line, next)
}

/// In plain LRC every output line of a lyric line is stamped with a time of
/// that line: the main line and each of its translation and romanisation
/// lines open with the line's start time, a background line (only ever
/// right after the main line) with the background vocals' start time, and
/// the end stamp is the line's end time.
pub proof fn lemma_plain_lines_stamped(o: LrcTypeGeneratorOptions, line: LyricLine, next: Option<LyricLine>)
    requires
        o.mode == LrcMode::Plain,
    ensures
        ({
            let out = single_line_output(o, line, next);
            forall|i: int|
                0 <= i < out.len() ==> lrc_time(line.start_time, InlineBracket::Square).is_prefix_of(#[trigger] out[i])
                    || (i == 1 && (line.background_vocal matches Some(b) && lrc_time(
                    b.start_time,
                    InlineBracket::Square,
                ).is_prefix_of(out[i]))) || out[i] == lrc_time(line.end_time, InlineBracket::Square)
        }),
        lrc_time(line.start_time, InlineBracket::Square).is_prefix_of(single_line_output(o, line, next)[0]),
{
    reveal(render_item);
    reveal(inlined);
    let il = inlined(o, line);
    let tag = lrc_time(line.start_time, InlineBracket::Square);
    let main = render_item(o, line.start_time, line.end_time, line.text@, nonempty_words(line.words), Some(il.main), false);
    let bg = if il.bg_line {
        let b = line.background_vocal.unwrap();
        seq![render_item(o, b.start_time, b.end_time, b.text@, nonempty_words(b.words), None, true)]
    } else {
        Seq::empty()
    };
    let aux = if o.auxiliary_lines.order == AuxLineOrder::TranslationFirst {
        il.trans + il.roma
    } else {
        il.roma + il.trans
    };
    let out = single_line_output(o, line, next);
    let es = end_stamp(o, line, next);
    assert(out == seq![main] + bg + tagged(tag, aux) + es);
    assert(main.take(tag.len() as int) =~= tag);
    assert forall|i: int|
        0 <= i < out.len() implies tag.is_prefix_of(#[trigger] out[i]) || (i == 1 && (line.background_vocal matches Some(b)
            && lrc_time(b.start_time, InlineBracket::Square).is_prefix_of(out[i]))) || out[i] == lrc_time(
        line.end_time,
        InlineBracket::Square,
    ) by {
        if i == 0 {
            assert(out[i] == main);
        } else if i < 1 + bg.len() {
            let b = line.background_vocal.unwrap();
            let bt = lrc_time(b.start_time, InlineBracket::Square);
            assert(out[i] == bg[0]);
            assert(bg[0].take(bt.len() as int) =~= bt);
        } else if i < 1 + bg.len() + aux.len() {
            let j = i - 1 - bg.len();
            assert(out[i] == tagged(tag, aux)[j]);
            assert((tag + aux[j]).take(tag.len() as int) =~= tag);
        } else {
            assert(out[i] == es[i - 1 - bg.len() - aux.len()]);
        }
    }
}

/// In every flavour of LRC, the lines a lyric line gives after its main
/// line are its background line (only ever right after the main line),
/// translation and romanisation lines that open with the line's start
/// time, and the end stamp, which is the line's end time.
pub proof fn lemma_aux_lines_stamped(o: LrcTypeGeneratorOptions, line: LyricLine, next: Option<LyricLine>)
    ensures
        ({
            let out = single_line_output(o, line, next);
            forall|i: int|
                1 <= i < out.len() ==> lrc_time(line.start_time, InlineBracket::Square).is_prefix_of(#[trigger] out[i])
                    || (i == 1 && line.background_vocal is Some) || out[i] == lrc_time(
                    line.end_time,
                    InlineBracket::Square,
                )
        }),
{
    reveal(inlined);
    let il = inlined(o, line);
    let tag = lrc_time(line.start_time, InlineBracket::Square);
    let main = render_item(o, line.start_time, line.end_time, line.text@, nonempty_words(line.words), Some(il.main), false);
    let bg = if il.bg_line {
        let b = line.background_vocal.unwrap();
        seq![render_item(o, b.start_time, b.end_time, b.text@, nonempty_words(b.words), None, true)]
    } else {
        Seq::empty()
    };
    let aux = if o.auxiliary_lines.order == AuxLineOrder::TranslationFirst {
        il.trans + il.roma
    } else {
        il.roma + il.trans
    };
    let out = single_line_output(o, line, next);
    let es = end_stamp(o, line, next);
    assert(out == seq![main] + bg + tagged(tag, aux) + es);
    assert forall|i: int|
        1 <= i < out.len() implies tag.is_prefix_of(#[trigger] out[i]) || (i == 1 && line.background_vocal is Some)
            || out[i] == lrc_time(line.end_time, InlineBracket::Square) by {
        if i < 1 + bg.len() {
        } else if i < 1 + bg.len() + aux.len() {
            let j = i - 1 - bg.len();
            assert(out[i] == tagged(tag, aux)[j]);
            assert((tag + aux[j]).take(tag.len() as int) =~= tag);
        } else {
            assert(out[i] == es[i - 1 - bg.len() - aux.len()]);
        }
    }
}

/// In plain LRC, with translations written on lines of their own and no
/// romanisation or background vocals asked for, a lyric line gives its
/// timestamp and text, then one line per translation, in order, each with
/// the line's timestamp and the translation's text.
pub proof fn lemma_plain_translation_lines(o: LrcTypeGeneratorOptions, line: LyricLine, next: Option<LyricLine>)
    requires
        o.mode == LrcMode::Plain,
        o.auxiliary_lines.translation.enabled,
        !o.auxiliary_lines.translation.inline,
        !o.auxiliary_lines.romanization.enabled,
        !o.auxiliary_lines.background_vocal.enabled,
    ensures
        ({
            let out = single_line_output(o, line, next);
            let tag = lrc_time(line.start_time, InlineBracket::Square);
            let ts = aux_texts(line.translations);
            &&& out.len() >= 1 + ts.len()
            &&& out[0] == tag + line.text@
            &&& forall|j: int| 0 <= j < ts.len() ==> #[trigger] out[1 + j] == tag + ts[j]
        }),
{
    reveal(render_item);
    reveal(inlined);
    let il = inlined(o, line);
    let tag = lrc_time(line.start_time, InlineBracket::Square);
    let ts = aux_texts(line.translations);
    assert(il.trans == ts && il.roma.len() == 0 && !il.bg_line && il.main == line.text@);
    let aux = if o.auxiliary_lines.order == AuxLineOrder::TranslationFirst {
        il.trans + il.roma
    } else {
        il.roma + il.trans
    };
    assert(aux =~= ts);
    let main = render_item(o, line.start_time, line.end_time, line.text@, nonempty_words(line.words), Some(il.main), false);
    let out = single_line_output(o, line, next);
    assert(out == seq![main] + Seq::<Seq<char>>::empty() + tagged(tag, aux) + end_stamp(o, line, next));
    assert forall|j: int| 0 <= j < ts.len() implies #[trigger] out[1 + j] == tag + ts[j] by {
        assert(out[1 + j] == tagged(tag, aux)[j]);
    }
}

/// In plain LRC, with background vocals on a line of their own and no
/// translation or romanisation asked for, a lyric line with background
/// vocals gives its own line, then the background vocals' timestamp and
/// their text in brackets.
pub proof fn lemma_plain_background_line(o: LrcTypeGeneratorOptions, line: LyricLine, next: Option<LyricLine>)
    requires
        o.mode == LrcMode::Plain,
        o.auxiliary_lines.background_vocal.enabled,
        !o.auxiliary_lines.background_vocal.inline,
        !o.auxiliary_lines.translation.enabled,
        !o.auxiliary_lines.romanization.enabled,
        line.background_vocal is Some,
    ensures
        ({
            let out = single_line_output(o, line, next);
            let b = line.background_vocal.unwrap();
            &&& out.len() >= 2
            &&& out[0] == lrc_time(line.start_time, InlineBracket::Square) + line.text@
            &&& out[1] == lrc_time(b.start_time, InlineBracket::Square) + "("@ + b.text@ + ")"@
        }),
{
    reveal(render_item);
    reveal(inlined);
    let il = inlined(o, line);
    assert(il.trans.len() == 0 && il.roma.len() == 0 && il.bg_line && il.main == line.text@);
}

/// The output lines of the first `n` lyric lines, each with the line after it.
pub open spec fn lrc_lines(o: LrcTypeGeneratorOptions, lines: Seq<LyricLine>, n: int) -> Seq<Seq<char>>
    decreases n,
{
    if n <= 0 {
        Seq::empty()
    } else {
        lrc_lines(o, lines, n - 1) + single_line_output(
            o,
            lines[n - 1],
            if n < lines.len() { Some(lines[n]) } else { None },
        )
    }
}

// ---------------------------------------------------------------------------
// The writer
// ---------------------------------------------------------------------------

/// Writer of LRC-family lyrics.
#[derive(Debug)]
pub struct LrcTypeGenerator {
    options: LrcTypeGeneratorOptions,
}

impl View for LrcTypeGenerator {
    type V = LrcTypeGeneratorOptions;

    closed spec fn view(&self) -> LrcTypeGeneratorOptions {
        self.options
    }
}

/// Appends `mm:ss.mmm` of `ms` in the given brackets (see `lrc_time`).
fn push_time(out: &mut String, ms: u32, bracket: InlineBracket)
    ensures
        final(out)@ == old(out)@ + lrc_time(ms, bracket),
{
    proof {
        reveal_strlit("<");
        reveal_strlit("[");
        reveal_strlit(">");
        reveal_strlit("]");
        reveal_strlit(":");
        reveal_strlit(".");
    }
    let ghost start = out@;
    let total_sec = ms / 1000;
    let mut piece = String::new();
    match bracket {
        InlineBracket::Angle => push_char(&mut piece, '<'),
        InlineBracket::Square => push_char(&mut piece, '['),
    }
    push_decimal_padded(&mut piece, (total_sec / 60) as u64, 2);
    push_char(&mut piece, ':');
    push_decimal_padded(&mut piece, (total_sec % 60) as u64, 2);
    push_char(&mut piece, '.');
    push_decimal_padded(&mut piece, (ms % 1000) as u64, 3);
    match bracket {
        InlineBracket::Angle => push_char(&mut piece, '>'),
        InlineBracket::Square => push_char(&mut piece, ']'),
    }
    assert(piece@ =~= lrc_time(ms, bracket));
    push_str(out, piece.as_str());
}

/// Appends syllable `i` of `len` (see `lrc_word`).
fn push_lrc_word(out: &mut String, word: &Syllable, i: usize, len: usize, is_bgv: bool, bracket: InlineBracket)
    requires
        i < len,
    ensures
        final(out)@ == old(out)@ + lrc_word(*word, i as int, len as int, is_bgv, bracket),
{
    proof {
        reveal_strlit("(");
        reveal_strlit(")");
        reveal_strlit(" ");
    }
    let mut piece = String::new();
    push_time(&mut piece, word.start_time, bracket);
    if is_bgv && i == 0 {
        push_char(&mut piece, '(');
    }
    let ghost p1 = piece@;
    assert(p1 =~= lrc_time(word.start_time, bracket) + (if is_bgv && i == 0 { "("@ } else { Seq::<char>::empty() }));
    push_str(&mut piece, word.text.as_str());
    if is_bgv && i == len - 1 {
        push_char(&mut piece, ')');
    }
    let ghost p2 = piece@;
    assert(p2 =~= p1 + word.text@ + (if is_bgv && i == len - 1 { ")"@ } else { Seq::<char>::empty() }));
    match word.ends_with_space {
        Some(true) => push_char(&mut piece, ' '),
        _ => {},
    }
    let ghost p3 = piece@;
    assert(p3 =~= p2 + (if flag(word.ends_with_space) { " "@ } else { Seq::<char>::empty() }));
    if i == len - 1 {
        push_time(&mut piece, word.end_time, bracket);
    }
    assert(piece@ =~= p3 + (if i == len - 1 { lrc_time(word.end_time, bracket) } else { Seq::<char>::empty() }));
    push_str(out, piece.as_str());
}

/// The texts of optional auxiliary lines (see `aux_texts`).
fn aux_texts_of(o: &Option<Vec<AuxText>>) -> (r: Vec<String>)
    ensures
        texts(r@) == aux_texts(*o),
{
    let mut r: Vec<String> = Vec::new();
    match o {
        Some(v) => {
            let mut i: usize = 0;
            while i < v.len()
                invariant
                    i <= v@.len(),
                    texts(r@) == v@.take(i as int).map_values(|a: AuxText| a.text@),
                decreases v@.len() - i,
            {
                let ghost before = texts(r@);
                r.push(to_owned_string(v[i].text.as_str()));
                assert(texts(r@) =~= before.push(v@[i as int].text@));
                assert(v@.take(i + 1).map_values(|a: AuxText| a.text@) =~= v@.take(i as int).map_values(
                    |a: AuxText| a.text@,
                ).push(v@[i as int].text@));
                i = i + 1;
            }
            assert(v@.take(v@.len() as int) =~= v@);
        },
        None => {
            assert(texts(r@) =~= Seq::<Seq<char>>::empty());
        },
    }
    r
}

/// `a` merged with `b` (see `merged`).
fn merge_texts(a: &Vec<String>, b: &Vec<String>) -> (r: Vec<String>)
    ensures
        texts(r@) == merged(texts(a@), texts(b@)),
{
    proof {
        reveal_strlit(" (");
        reveal_strlit("(");
        reveal_strlit(")");
    }
    let mut r: Vec<String> = Vec::new();
    let n = if a.len() >= b.len() { a.len() } else { b.len() };
    let mut i: usize = 0;
    while i < n
        invariant
            i <= n,
            n == (if a@.len() >= b@.len() { a@.len() } else { b@.len() }),
            r@.len() == i,
            forall|k: int| 0 <= k < i ==> #[trigger] r@[k]@ == merged(texts(a@), texts(b@))[k],
        decreases n - i,
    {
        let ghost m = merged(texts(a@), texts(b@));
        proof {
            reveal_strlit(" (");
            reveal_strlit("(");
            reveal_strlit(")");
        }
        let mut s = String::new();
        if i < a.len() {
            push_str(&mut s, a[i].as_str());
            if i < b.len() {
                push_str(&mut s, " (");
                push_str(&mut s, b[i].as_str());
                push_char(&mut s, ')');
                assert(s@ =~= a@[i as int]@ + " ("@ + b@[i as int]@ + ")"@);
            } else {
                assert(s@ =~= a@[i as int]@);
            }
        } else {
            push_char(&mut s, '(');
            push_str(&mut s, b[i].as_str());
            push_char(&mut s, ')');
            assert(s@ =~= "("@ + b@[i as int]@ + ")"@);
        }
        proof {
            if i < a@.len() {
                assert(texts(a@)[i as int] == a@[i as int]@);
                if i < b@.len() {
                    assert(texts(b@)[i as int] == b@[i as int]@);
                    assert(m[i as int] == a@[i as int]@ + " ("@ + b@[i as int]@ + ")"@);
                } else {
                    assert(m[i as int] == a@[i as int]@);
                }
            } else {
                assert(texts(b@)[i as int] == b@[i as int]@);
                assert(m[i as int] == "("@ + b@[i as int]@ + ")"@);
            }
            assert(s@ =~= m[i as int]);
        }
        r.push(s);
        i = i + 1;
    }
    assert(texts(r@) =~= merged(texts(a@), texts(b@)));
    r
}

/// `target` with `content` appended in brackets (see `inline_appended`).
pub fn append_inline_text(target: &mut String, inline_content: &str)
    ensures
        final(target)@ == inline_appended(old(target)@, inline_content@),
{
    proof {
        reveal_strlit(" (");
        reveal_strlit("(");
        reveal_strlit(")");
    }
    let ghost before = target@;
    if crate::text::text_is_empty(target.as_str()) {
        push_char(target, '(');
        push_str(target, inline_content);
        push_char(target, ')');
        assert(target@ =~= "("@ + inline_content@ + ")"@);
    } else {
        push_str(target, " (");
        push_str(target, inline_content);
        push_char(target, ')');
        assert(target@ =~= before + " ("@ + inline_content@ + ")"@);
    }
}

/// Appends each text of `ts` preceded by `tag` as a line of its own.
fn push_tagged(output_lines: &mut Vec<String>, tag: &str, ts: &Vec<String>)
    ensures
        texts(final(output_lines)@) == texts(old(output_lines)@) + tagged(tag@, texts(ts@)),
{
    let ghost start = texts(output_lines@);
    let mut i: usize = 0;
    while i < ts.len()
        invariant
            i <= ts@.len(),
            texts(output_lines@) == start + tagged(tag@, texts(ts@).take(i as int)),
        decreases ts@.len() - i,
    {
        let ghost before = texts(output_lines@);
        let mut s = to_owned_string(tag);
        push_str(&mut s, ts[i].as_str());
        output_lines.push(s);
        proof {
            assert(texts(output_lines@) =~= before.push(s@));
            assert(texts(ts@).take(i + 1) =~= texts(ts@).take(i as int).push(ts@[i as int]@));
            assert(tagged(tag@, texts(ts@).take(i + 1)) =~= tagged(tag@, texts(ts@).take(i as int)).push(
                tag@ + ts@[i as int]@,
            ));
            assert(texts(output_lines@) =~= start + tagged(tag@, texts(ts@).take(i + 1)));
        }
        i = i + 1;
    }
    assert(texts(ts@).take(ts@.len() as int) =~= texts(ts@));
}

impl LrcTypeGenerator {
    /// A writer with the given options.
    pub fn new(options: LrcTypeGeneratorOptions) -> (r: Self)
        ensures
            r@ == options,
    {
        LrcTypeGenerator { options }
    }

    /// The LRC text of the lyrics: the output lines of every lyric line (see
    /// `single_line_output`), one per line.
    pub fn generate(&self, ir: &TTMLResult) -> (r: String)
        ensures
            r@ == join_with(lrc_lines(self@, ir.lines@, ir.lines@.len() as int), "\n"@),
    {
        let mut output_lines: Vec<String> = Vec::new();
        let mut i: usize = 0;
        while i < ir.lines.len()
            invariant
                i <= ir.lines@.len(),
                texts(output_lines@) == lrc_lines(self@, ir.lines@, i as int),
            decreases ir.lines@.len() - i,
        {
            let next_line = if i + 1 < ir.lines.len() { Some(&ir.lines[i + 1]) } else { None };
            self.process_single_line(&ir.lines[i], next_line, &mut output_lines);
            i = i + 1;
        }
        join_strings(&output_lines, "\n")
    }

    /// Appends the output lines of one lyric line (see `single_line_output`).
    pub fn process_single_line(&self, line: &LyricLine, next_line: Option<&LyricLine>, output_lines: &mut Vec<String>)
        ensures
            texts(final(output_lines)@) == texts(old(output_lines)@) + single_line_output(
                self@,
                *line,
                match next_line {
                    Some(n) => Some(*n),
                    None => None,
                },
            ),
    {
        let ghost start = texts(output_lines@);
        let ghost il = inlined(self@, *line);
        let aux_config = &self.options.auxiliary_lines;
        let mut line_time_tag = String::new();
        push_time(&mut line_time_tag, line.start_time, InlineBracket::Square);
        let (main_line_text, trans_texts, roma_texts, bg_line_opt) = self.inline_auxiliary(line);
        let main_item = self.render_base_item(
            line.start_time,
            line.end_time,
            line.text.as_str(),
            nonempty(&line.words),
            Some(main_line_text.as_str()),
            false,
        );
        output_lines.push(main_item);
        assert(texts(output_lines@) =~= start + seq![main_item@]);
        match bg_line_opt {
            Some(bg_line) => {
                let bg_item = self.render_base_item(
                    bg_line.start_time,
                    bg_line.end_time,
                    bg_line.text.as_str(),
                    nonempty(&bg_line.words),
                    None,
                    true,
                );
                let ghost before = texts(output_lines@);
                output_lines.push(bg_item);
                assert(texts(output_lines@) =~= before + seq![bg_item@]);
            },
            None => {},
        }
        let ghost mid = texts(output_lines@);
        let ghost bg_s = if il.bg_line {
            let b = line.background_vocal.unwrap();
            seq![render_item(self@, b.start_time, b.end_time, b.text@, nonempty_words(b.words), None, true)]
        } else {
            Seq::<Seq<char>>::empty()
        };
        assert(mid =~= start + seq![main_item@] + bg_s);
        match aux_config.order {
            AuxLineOrder::TranslationFirst => {
                push_tagged(output_lines, line_time_tag.as_str(), &trans_texts);
                push_tagged(output_lines, line_time_tag.as_str(), &roma_texts);
                assert(tagged(line_time_tag@, texts(trans_texts@)) + tagged(line_time_tag@, texts(roma_texts@))
                    =~= tagged(line_time_tag@, texts(trans_texts@) + texts(roma_texts@)));
            },
            AuxLineOrder::RomanizationFirst => {
                push_tagged(output_lines, line_time_tag.as_str(), &roma_texts);
                push_tagged(output_lines, line_time_tag.as_str(), &trans_texts);
                assert(tagged(line_time_tag@, texts(roma_texts@)) + tagged(line_time_tag@, texts(trans_texts@))
                    =~= tagged(line_time_tag@, texts(roma_texts@) + texts(trans_texts@)));
            },
        }
        let ghost aux = if self@.auxiliary_lines.order == AuxLineOrder::TranslationFirst {
            il.trans + il.roma
        } else {
            il.roma + il.trans
        };
        assert(texts(output_lines@) =~= mid + tagged(line_time_tag@, aux));
        let ghost before_end = texts(output_lines@);
        self.process_end_timestamp(line, next_line, output_lines);
        assert(texts(output_lines@) =~= start + single_line_output(
            self@,
            *line,
            match next_line {
                Some(n) => Some(*n),
                None => None,
            },
        ));
    }

    /// Inlining of one line (see `inlined`): the main text, the
    /// translation and romanisation lines left, and the background vocals if
    /// they keep a line of their own.
    fn inline_auxiliary<'a>(&self, line: &'a LyricLine) -> (r: (String, Vec<String>, Vec<String>, Option<&'a BackgroundLine>))
        ensures
            r.0@ == inlined(self@, *line).main,
            texts(r.1@) == inlined(self@, *line).trans,
            texts(r.2@) == inlined(self@, *line).roma,
            r.3 is Some == inlined(self@, *line).bg_line,
            r.3 matches Some(b) ==> line.background_vocal == Some(*b),
    {
        let ghost il = inlined(self@, *line);
        proof {
            reveal(inlined);
        }
        let aux_config = &self.options.auxiliary_lines;
        let mode = self.options.mode;
        let output_translations = aux_config.translation.enabled;
        let output_romanizations = aux_config.romanization.enabled;
        let output_background_vocals = aux_config.background_vocal.enabled;
        let trans_inline = mode == LrcMode::Plain && aux_config.translation.inline;
        let roma_inline = mode == LrcMode::Plain && !trans_inline && aux_config.romanization.inline;
        let bgv_inline = mode == LrcMode::Plain && !trans_inline && !roma_inline && aux_config.background_vocal.inline;

        let mut trans_texts: Vec<String> = if output_translations {
            aux_texts_of(&line.translations)
        } else {
            Vec::new()
        };
        let mut roma_texts: Vec<String> = if output_romanizations {
            aux_texts_of(&line.romanizations)
        } else {
            Vec::new()
        };
        let mut bg_line_opt: Option<&BackgroundLine> = if output_background_vocals {
            match &line.background_vocal {
                Some(b) => Some(b),
                None => None,
            }
        } else {
            None
        };
        let mut main_line_text = to_owned_string(line.text.as_str());
        if trans_inline && trans_texts.len() > 0 {
            let ghost before = texts(trans_texts@);
            let inline_content = trans_texts.remove(0);
            assert(texts(trans_texts@) =~= before.drop_first());
            append_inline_text(&mut main_line_text, inline_content.as_str());
        } else if roma_inline && roma_texts.len() > 0 {
            let ghost before = texts(roma_texts@);
            let inline_content = roma_texts.remove(0);
            assert(texts(roma_texts@) =~= before.drop_first());
            append_inline_text(&mut main_line_text, inline_content.as_str());
        } else if bgv_inline && bg_line_opt.is_some() {
            let bgv_to_inline = bg_line_opt.unwrap();
            bg_line_opt = None;
            append_inline_text(&mut main_line_text, bgv_to_inline.text.as_str());
            if output_translations && bgv_to_inline.translations.is_some() {
                let extra = aux_texts_of(&bgv_to_inline.translations);
                trans_texts = merge_texts(&trans_texts, &extra);
            }
            if output_romanizations && bgv_to_inline.romanizations.is_some() {
                let extra = aux_texts_of(&bgv_to_inline.romanizations);
                roma_texts = merge_texts(&roma_texts, &extra);
            }
        }
        proof {
            assert(main_line_text@ == il.main);
            assert(texts(trans_texts@) =~= il.trans);
            assert(texts(roma_texts@) =~= il.roma);
            assert(bg_line_opt is Some == il.bg_line);
        }

        (main_line_text, trans_texts, roma_texts, bg_line_opt)
    }

    /// One rendered line (see `render_item`); an empty word list counts as
    /// no words.
    pub fn render_base_item(
        &self,
        start_time: u32,
        end_time: u32,
        original_text: &str,
        words_opt: Option<&Vec<Syllable>>,
        override_text: Option<&str>,
        is_bgv: bool,
    ) -> (r: String)
        ensures
            r@ == render_item(
                self@,
                start_time,
                end_time,
                original_text@,
                match words_opt {
                    Some(w) => Some(w@),
                    None => None,
                },
                match override_text {
                    Some(t) => Some(t@),
                    None => None,
                },
                is_bgv,
            ),
    {
        proof {
            reveal_strlit("(");
            reveal_strlit(")");
        }
        let mode = self.options.mode;
        let word_mode = mode == LrcMode::Enhanced || mode == LrcMode::Spl;
        let mut output = String::new();
        if word_mode && words_opt.is_some() && words_opt.unwrap().len() > 0 {
            let words = words_opt.unwrap();
            if !self.options.skip_line_timestamp {
                push_time(&mut output, start_time, InlineBracket::Square);
            }
            let ghost head = output@;
            let len = words.len();
            let mut i: usize = 0;
            while i < len
                invariant
                    i <= len,
                    len == words@.len(),
                    output@ == head + lrc_words(words@, i as int, is_bgv, self@.inline_bracket),
                decreases len - i,
            {
                let ghost prev = output@;
                push_lrc_word(&mut output, &words[i], i, len, is_bgv, self.options.inline_bracket);
                assert(output@ =~= prev + lrc_word(words@[i as int], i as int, len as int, is_bgv, self@.inline_bracket));
                i = i + 1;
            }
        } else {
            let text_to_use = match override_text {
                Some(t) => t,
                None => original_text,
            };
            push_time(&mut output, start_time, InlineBracket::Square);
            let ghost head = output@;
            if is_bgv {
                push_char(&mut output, '(');
            }
            push_str(&mut output, text_to_use);
            if is_bgv {
                push_char(&mut output, ')');
            }
            let ghost mid = output@;
            assert(mid =~= head + (if is_bgv { "("@ + text_to_use@ + ")"@ } else { text_to_use@ }));
            if word_mode {
                push_time(&mut output, end_time, InlineBracket::Square);
            }
            assert(output@ =~= mid + (if word_mode {
                lrc_time(end_time, InlineBracket::Square)
            } else {
                Seq::<char>::empty()
            }));
        }
        proof {
            reveal(render_item);
        }
        output
    }

    /// Appends the explicit end timestamp of plain LRC when due (see
    /// `end_stamp`).
    pub fn process_end_timestamp(&self, line: &LyricLine, next_line: Option<&LyricLine>, output_lines: &mut Vec<String>)
        ensures
            texts(final(output_lines)@) == texts(old(output_lines)@) + end_stamp(
                self@,
                *line,
                match next_line {
                    Some(n) => Some(*n),
                    None => None,
                },
            ),
    {
        let ghost start = texts(output_lines@);
        let end_ts = self.options.end_timestamp;
        if self.options.mode == LrcMode::Plain && end_ts.mode != EndTimestampMode::Never {
            let gap: u32 = match next_line {
                Some(next) => next.start_time.saturating_sub(line.end_time),
                None => u32::MAX,
            };
            if end_ts.mode == EndTimestampMode::Always || (end_ts.mode == EndTimestampMode::Interval && gap
                > end_ts.interval_gap) {
                let mut s = String::new();
                push_time(&mut s, line.end_time, InlineBracket::Square);
                output_lines.push(s);
            }
        }
        assert(texts(output_lines@) =~= start + end_stamp(
            self@,
            *line,
            match next_line {
                Some(n) => Some(*n),
                None => None,
            },
        ));
    }

    /// `mm:ss.mmm` of a time in milliseconds, in the given brackets.
    pub fn format_time(&self, ms: u32, bracket: InlineBracket) -> (r: String)
        ensures
            r@ == lrc_time(ms, bracket),
    {
        let mut s = String::new();
        push_time(&mut s, ms, bracket);
        s
    }
}

} // verus!
