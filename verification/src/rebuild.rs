//! Rebuilding the lyric folders of the database: reading the stored TTML
//! files into AMLL lines, writing them out in the other lyric formats, and
//! crediting the contributors.

use vstd::prelude::*;

use crate::metadata::{lemma_text_lt_total, lemma_text_lt_trans, text_less, text_lt};
use crate::parser::parse_ttml;
use crate::text::{chars_of, decimal, decimal_padded, push_decimal, push_str, string_from_range, texts, to_owned_string};
use crate::yrc::yrc_safe;
use crate::time::{find_char, index_of, parse_u64_range, parse_u64_spec};
use crate::types::{
    first_index_of_type, opt_text, track_syllables, AnnotatedTrack, ContentType, ConvertError, LyricLine, LyricSyllable,
    ParsedSourceData, TtmlParsingOptions,
};

verus! {

// ---------------------------------------------------------------------------
// AMLL lines
// ---------------------------------------------------------------------------

/// A word of an AMLL line.
#[derive(Debug)]
pub struct AmllWord {
    /// Start time in milliseconds.
    pub start_time: u64,
    /// End time in milliseconds.
    pub end_time: u64,
    /// The text of the word.
    pub word: String,
}

/// A line in the AMLL lyric model.
#[derive(Debug)]
pub struct AmllLine {
    /// The words of the line.
    pub words: Vec<AmllWord>,
    /// The translation of the line.
    pub translated_lyric: String,
    /// The romanisation of the line.
    pub roman_lyric: String,
    /// Whether the line is sung in the background.
    pub is_bg: bool,
    /// Whether the line is sung by a second singer.
    pub is_duet: bool,
    /// Start time in milliseconds.
    pub start_time: u64,
    /// End time in milliseconds.
    pub end_time: u64,
}

/// The value of an AMLL word.
pub struct AmllWordView {
    pub start_time: u64,
    pub end_time: u64,
    pub word: Seq<char>,
}

/// The value of an AMLL line.
pub struct AmllLineView {
    pub words: Seq<AmllWordView>,
    pub translated_lyric: Seq<char>,
    pub roman_lyric: Seq<char>,
    pub is_bg: bool,
    pub is_duet: bool,
    pub start_time: u64,
    pub end_time: u64,
}

impl View for AmllWord {
    type V = AmllWordView;

    open spec fn view(&self) -> AmllWordView {
        AmllWordView { start_time: self.start_time, end_time: self.end_time, word: self.word@ }
    }
}

impl View for AmllLine {
    type V = AmllLineView;

    open spec fn view(&self) -> AmllLineView {
        AmllLineView {
            words: self.words@.map_values(|w: AmllWord| w@),
            translated_lyric: self.translated_lyric@,
            roman_lyric: self.roman_lyric@,
            is_bg: self.is_bg,
            is_duet: self.is_duet,
            start_time: self.start_time,
            end_time: self.end_time,
        }
    }
}

/// The values of AMLL lines.
pub open spec fn lines_view(lines: Seq<AmllLine>) -> Seq<AmllLineView> {
    lines.map_values(|l: AmllLine| l@)
}

/// Whether a line's singer makes it a duet line: any singer but none and `v1`.
pub open spec fn is_duet_agent(agent: Option<String>) -> bool {
    match agent {
        Some(a) => a@ != "v1"@,
        None => false,
    }
}

/// The AMLL words of syllables: each syllable, followed by a word `" "`
/// timed `0..0` when a space follows it.
pub open spec fn amll_words(syls: Seq<LyricSyllable>) -> Seq<AmllWordView>
    decreases syls.len(),
{
    if syls.len() == 0 {
        Seq::empty()
    } else {
        let s = syls.last();
        amll_words(syls.drop_last()) + seq![AmllWordView { start_time: s.start_ms, end_time: s.end_ms, word: s.text@ }]
            + if s.ends_with_space {
            seq![AmllWordView { start_time: 0, end_time: 0, word: " "@ }]
        } else {
            Seq::empty()
        }
    }
}

/// The AMLL line of one track of `line`.
pub open spec fn track_line(t: AnnotatedTrack, line: LyricLine, is_bg: bool) -> AmllLineView {
    AmllLineView {
        words: amll_words(track_syllables(t.content)),
        translated_lyric: Seq::empty(),
        roman_lyric: Seq::empty(),
        is_bg,
        is_duet: is_duet_agent(line.agent),
        start_time: line.start_ms,
        end_time: line.end_ms,
    }
}

/// The AMLL lines of a lyric line: one for its first main track and one
/// for its first background track, when it has them.
pub open spec fn line_to_amll(line: LyricLine) -> Seq<AmllLineView> {
    (match first_index_of_type(line.tracks@, ContentType::Main) {
        Some(k) => seq![track_line(line.tracks@[k], line, false)],
        None => Seq::empty(),
    }) + (match first_index_of_type(line.tracks@, ContentType::Background) {
        Some(k) => seq![track_line(line.tracks@[k], line, true)],
        None => Seq::empty(),
    })
}

/// The AMLL lines of lyric lines, in order.
pub open spec fn lines_to_amll(lines: Seq<LyricLine>) -> Seq<AmllLineView>
    decreases lines.len(),
{
    if lines.len() == 0 {
        Seq::empty()
    } else {
        lines_to_amll(lines.drop_last()) + line_to_amll(lines.last())
    }
}

/// The AMLL words of the syllables of a track (see `amll_words`).
fn track_words(t: &AnnotatedTrack) -> (r: Vec<AmllWord>)
    ensures
        r@.map_values(|w: AmllWord| w@) == amll_words(track_syllables(t.content)),
{
    proof {
        reveal_strlit(" ");
    }
    let syls = crate::generator::flat_syllables(&t.content.words);
    let ghost all = track_syllables(t.content);
    let mut words: Vec<AmllWord> = Vec::new();
    let mut i: usize = 0;
    while i < syls.len()
        invariant
            i <= syls@.len(),
            syls@.len() == all.len(),
            forall|k: int| 0 <= k < syls@.len() ==> *#[trigger] syls@[k] == all[k],
            words@.map_values(|w: AmllWord| w@) == amll_words(all.take(i as int)),
        decreases syls@.len() - i,
    {
        let s = syls[i];
        assert(all.take(i + 1).drop_last() =~= all.take(i as int));
        assert(all.take(i + 1).last() == *s);
        let ghost before = words@.map_values(|w: AmllWord| w@);
        words.push(AmllWord { start_time: s.start_ms, end_time: s.end_ms, word: s.text.clone() });
        if s.ends_with_space {
            words.push(AmllWord { start_time: 0, end_time: 0, word: crate::text::to_owned_string(" ") });
        }
        assert(words@.map_values(|w: AmllWord| w@) =~= amll_words(all.take(i + 1)));
        i = i + 1;
    }
    assert(all.take(all.len() as int) =~= all);
    words
}

/// The AMLL line of one track of `line` (see `track_line`).
fn amll_track_line(t: &AnnotatedTrack, line: &LyricLine, is_bg: bool) -> (r: AmllLine)
    ensures
        r@ == track_line(*t, *line, is_bg),
{
    proof {
        reveal_strlit("v1");
    }
    let is_duet = match &line.agent {
        Some(a) => !crate::text::str_eq(a.as_str(), "v1"),
        None => false,
    };
    let words = track_words(t);
    AmllLine {
        words,
        translated_lyric: String::new(),
        roman_lyric: String::new(),
        is_bg,
        is_duet,
        start_time: line.start_ms,
        end_time: line.end_ms,
    }
}

/// The AMLL lines of lyric lines (see `lines_to_amll`).
pub fn amll_lines_of(lines: &[LyricLine]) -> (r: Vec<AmllLine>)
    ensures
        lines_view(r@) == lines_to_amll(lines@),
{
    let mut out: Vec<AmllLine> = Vec::new();
    let mut i: usize = 0;
    while i < lines.len()
        invariant
            i <= lines@.len(),
            lines_view(out@) == lines_to_amll(lines@.take(i as int)),
        decreases lines@.len() - i,
    {
        let line = &lines[i];
        assert(lines@.take(i + 1).drop_last() =~= lines@.take(i as int));
        assert(lines@.take(i + 1).last() == *line);
        let ghost before = lines_view(out@);
        match line.main_track() {
            Some(t) => out.push(amll_track_line(t, line, false)),
            None => {},
        }
        let ghost mid = lines_view(out@);
        match line.background_track() {
            Some(t) => out.push(amll_track_line(t, line, true)),
            None => {},
        }
        assert(lines_view(out@) =~= before + line_to_amll(*line));
        i = i + 1;
    }
    assert(lines@.take(lines@.len() as int) =~= lines@);
    out
}

// ---------------------------------------------------------------------------
// Other lyric formats
// ---------------------------------------------------------------------------

/// The texts `f` gives each of the lines, one after the other.
pub open spec fn lines_text(lines: Seq<AmllLineView>, f: spec_fn(AmllLineView) -> Seq<char>) -> Seq<char>
    decreases lines.len(),
{
    if lines.len() == 0 {
        Seq::empty()
    } else {
        lines_text(lines.drop_last(), f) + f(lines.last())
    }
}

/// The texts `f` gives each of the words, one after the other.
pub open spec fn words_text(ws: Seq<AmllWordView>, f: spec_fn(AmllWordView) -> Seq<char>) -> Seq<char>
    decreases ws.len(),
{
    if ws.len() == 0 {
        Seq::empty()
    } else {
        words_text(ws.drop_last(), f) + f(ws.last())
    }
}

/// A time as `amll_lyric::lrc::write_timestamp` writes it: `[mm:ss.fff]`,
/// the minutes in at least two digits.
pub open spec fn amll_timestamp(t: u64) -> Seq<char> {
    "["@ + decimal_padded((t / 60000) as nat, 2) + ":"@ + decimal_padded(((t / 1000) % 60) as nat, 2) + "."@
        + decimal_padded((t % 1000) as nat, 3) + "]"@
}

/// How long a word lasts.
pub open spec fn word_duration(w: AmllWordView) -> nat {
    (w.end_time - w.start_time) as nat
}

/// The LRC text `amll_lyric::lrc::stringify_lrc` writes: for each line with
/// words, the first word's start time, the words, and a line break.
pub open spec fn amll_lrc(lines: Seq<AmllLineView>) -> Seq<char> {
    lines_text(
        lines,
        |l: AmllLineView|
            if l.words.len() == 0 {
                Seq::empty()
            } else {
                amll_timestamp(l.words[0].start_time) + words_text(l.words, |w: AmllWordView| w.word) + "\n"@
            },
    )
}

/// The YRC text `amll_lyric::yrc::stringify_yrc` writes: for each line with
/// words, `[start,duration]` (the first word's start, the sum of the words'
/// durations), then `(start,duration,0)` and the text of each word with
/// ASCII parentheses made full-width, and a line break.
pub open spec fn amll_yrc(lines: Seq<AmllLineView>) -> Seq<char> {
    lines_text(
        lines,
        |l: AmllLineView|
            if l.words.len() == 0 {
                Seq::empty()
            } else {
                "["@ + decimal(l.words[0].start_time as nat) + ","@ + decimal(duration_sum(l.words) as nat) + "]"@
                    + words_text(
                    l.words,
                    |w: AmllWordView|
                        "("@ + decimal(w.start_time as nat) + ","@ + decimal(word_duration(w)) + ",0)"@ + yrc_safe(
                            w.word,
                        ),
                ) + "\n"@
            },
    )
}

/// The property mark of a LYS line: background and duet lines differ.
pub open spec fn lys_prop(l: AmllLineView) -> Seq<char> {
    if !l.is_bg && !l.is_duet {
        "[0]"@
    } else if !l.is_bg {
        "[2]"@
    } else if !l.is_duet {
        "[6]"@
    } else {
        "[8]"@
    }
}

/// The LYS text `amll_lyric::lys::stringify_lys` writes: for each line with
/// words, its property mark, then each word's text and `(start,duration)`,
/// and a line break.
pub open spec fn amll_lys(lines: Seq<AmllLineView>) -> Seq<char> {
    lines_text(
        lines,
        |l: AmllLineView|
            if l.words.len() == 0 {
                Seq::empty()
            } else {
                lys_prop(l) + words_text(
                    l.words,
                    |w: AmllWordView| w.word + "("@ + decimal(w.start_time as nat) + ","@ + decimal(word_duration(w)) + ")"@,
                ) + "\n"@
            },
    )
}

/// The QRC text `amll_lyric::qrc::stringify_qrc` writes: for each line with
/// words, `[start,duration]` (the first word's start, the sum of the words'
/// durations), then each word's text and `(start,duration)`, and a line
/// break.
pub open spec fn amll_qrc(lines: Seq<AmllLineView>) -> Seq<char> {
    lines_text(
        lines,
        |l: AmllLineView|
            if l.words.len() == 0 {
                Seq::empty()
            } else {
                "["@ + decimal(l.words[0].start_time as nat) + ","@ + decimal(duration_sum(l.words) as nat) + "]"@
                    + words_text(
                    l.words,
                    |w: AmllWordView| w.word + "("@ + decimal(w.start_time as nat) + ","@ + decimal(word_duration(w)) + ")"@,
                ) + "\n"@
            },
    )
}

/// The ESLRC text `amll_lyric::eslrc::stringify_eslrc` writes: for each
/// line with words, the first word's start time, then each word's text and
/// its end time, and a line break.
pub open spec fn amll_eslrc(lines: Seq<AmllLineView>) -> Seq<char> {
    lines_text(
        lines,
        |l: AmllLineView|
            if l.words.len() == 0 {
                Seq::empty()
            } else {
                amll_timestamp(l.words[0].start_time) + words_text(
                    l.words,
                    |w: AmllWordView| w.word + amll_timestamp(w.end_time),
                ) + "\n"@
            },
    )
}

/// The sum of the durations of words.
pub open spec fn duration_sum(ws: Seq<AmllWordView>) -> int
    decreases ws.len(),
{
    if ws.len() == 0 {
        0
    } else {
        duration_sum(ws.drop_last()) + (ws.last().end_time - ws.last().start_time)
    }
}

/// No word ends before it starts.
pub open spec fn words_ordered(lines: Seq<AmllLineView>) -> bool {
    forall|i: int, j: int|
        0 <= i < lines.len() && 0 <= j < lines[i].words.len() ==> #[trigger] lines[i].words[j].start_time
            <= lines[i].words[j].end_time
}

/// No word ends before it starts, and the durations of the words of each
/// line add up to a 64-bit number.
pub open spec fn durations_fit(lines: Seq<AmllLineView>) -> bool {
    &&& words_ordered(lines)
    &&& forall|i: int| 0 <= i < lines.len() ==> duration_sum(#[trigger] lines[i].words) <= u64::MAX
}

/// `amll_lyric::lrc::stringify_lrc` on the lines. Claimed: the text is
/// `amll_lrc`, as the crate writes it.
#[verifier::external_body]
fn stringify_lrc(lines: &[AmllLine]) -> (r: String)
    ensures
        r@ == amll_lrc(lines_view(lines@)),
{
    let v: Vec<amll_lyric::LyricLine> = lines.iter().map(|l| amll_lyric::LyricLine {
        words: l.words.iter().map(|w| amll_lyric::LyricWord { start_time: w.start_time, end_time: w.end_time, word: w.word.as_str().into() }).collect(),
        translated_lyric: l.translated_lyric.as_str().into(), roman_lyric: l.roman_lyric.as_str().into(),
        is_bg: l.is_bg, is_duet: l.is_duet, start_time: l.start_time, end_time: l.end_time,
    }).collect();
    amll_lyric::lrc::stringify_lrc(&v)
}

/// `amll_lyric::yrc::stringify_yrc` on the lines. Claimed: the text is
/// `amll_yrc`, as the crate writes it. It subtracts each word's start
/// from its end and adds up a line's durations, which must not overflow.
#[verifier::external_body]
fn stringify_yrc(lines: &[AmllLine]) -> (r: String)
    requires
        durations_fit(lines_view(lines@)),
    ensures
        r@ == amll_yrc(lines_view(lines@)),
{
    let v: Vec<amll_lyric::LyricLine> = lines.iter().map(|l| amll_lyric::LyricLine {
        words: l.words.iter().map(|w| amll_lyric::LyricWord { start_time: w.start_time, end_time: w.end_time, word: w.word.as_str().into() }).collect(),
        translated_lyric: l.translated_lyric.as_str().into(), roman_lyric: l.roman_lyric.as_str().into(),
        is_bg: l.is_bg, is_duet: l.is_duet, start_time: l.start_time, end_time: l.end_time,
    }).collect();
    amll_lyric::yrc::stringify_yrc(&v)
}

/// `amll_lyric::lys::stringify_lys` on the lines. Claimed: the text is
/// `amll_lys`, as the crate writes it. It subtracts each word's start
/// from its end.
#[verifier::external_body]
fn stringify_lys(lines: &[AmllLine]) -> (r: String)
    requires
        words_ordered(lines_view(lines@)),
    ensures
        r@ == amll_lys(lines_view(lines@)),
{
    let v: Vec<amll_lyric::LyricLine> = lines.iter().map(|l| amll_lyric::LyricLine {
        words: l.words.iter().map(|w| amll_lyric::LyricWord { start_time: w.start_time, end_time: w.end_time, word: w.word.as_str().into() }).collect(),
        translated_lyric: l.translated_lyric.as_str().into(), roman_lyric: l.roman_lyric.as_str().into(),
        is_bg: l.is_bg, is_duet: l.is_duet, start_time: l.start_time, end_time: l.end_time,
    }).collect();
    amll_lyric::lys::stringify_lys(&v)
}

/// `amll_lyric::qrc::stringify_qrc` on the lines. Claimed: the text is
/// `amll_qrc`, as the crate writes it. It subtracts each word's start
/// from its end and adds up a line's durations, which must not overflow.
#[verifier::external_body]
fn stringify_qrc(lines: &[AmllLine]) -> (r: String)
    requires
        durations_fit(lines_view(lines@)),
    ensures
        r@ == amll_qrc(lines_view(lines@)),
{
    let v: Vec<amll_lyric::LyricLine> = lines.iter().map(|l| amll_lyric::LyricLine {
        words: l.words.iter().map(|w| amll_lyric::LyricWord { start_time: w.start_time, end_time: w.end_time, word: w.word.as_str().into() }).collect(),
        translated_lyric: l.translated_lyric.as_str().into(), roman_lyric: l.roman_lyric.as_str().into(),
        is_bg: l.is_bg, is_duet: l.is_duet, start_time: l.start_time, end_time: l.end_time,
    }).collect();
    amll_lyric::qrc::stringify_qrc(&v)
}

/// `amll_lyric::eslrc::stringify_eslrc` on the lines. Claimed: the text is
/// `amll_eslrc`, as the crate writes it.
#[verifier::external_body]
fn stringify_eslrc(lines: &[AmllLine]) -> (r: String)
    ensures
        r@ == amll_eslrc(lines_view(lines@)),
{
    let v: Vec<amll_lyric::LyricLine> = lines.iter().map(|l| amll_lyric::LyricLine {
        words: l.words.iter().map(|w| amll_lyric::LyricWord { start_time: w.start_time, end_time: w.end_time, word: w.word.as_str().into() }).collect(),
        translated_lyric: l.translated_lyric.as_str().into(), roman_lyric: l.roman_lyric.as_str().into(),
        is_bg: l.is_bg, is_duet: l.is_duet, start_time: l.start_time, end_time: l.end_time,
    }).collect();
    amll_lyric::eslrc::stringify_eslrc(&v)
}

/// The first word that ends before it starts, if any.
fn first_unordered(words: &Vec<AmllWord>) -> (r: Option<usize>)
    ensures
        match r {
            Some(k) => k < words@.len() && words@[k as int].end_time < words@[k as int].start_time,
            None => forall|k: int| 0 <= k < words@.len() ==> #[trigger] words@[k].start_time <= words@[k].end_time,
        },
{
    let mut j: usize = 0;
    while j < words.len()
        invariant
            j <= words@.len(),
            forall|k: int| 0 <= k < j ==> #[trigger] words@[k].start_time <= words@[k].end_time,
        decreases words@.len() - j,
    {
        if words[j].end_time < words[j].start_time {
            return Some(j);
        }
        j = j + 1;
    }
    None
}

/// Whether the durations of ordered words add up to a 64-bit number.
fn durations_add_up(words: &Vec<AmllWord>) -> (r: bool)
    requires
        forall|k: int| 0 <= k < words@.len() ==> #[trigger] words@[k].start_time <= words@[k].end_time,
    ensures
        r == (duration_sum(words@.map_values(|w: AmllWord| w@)) <= u64::MAX),
{
    let ghost ws = words@.map_values(|w: AmllWord| w@);
    assert forall|k: int| 0 <= k < ws.len() implies #[trigger] ws[k].start_time <= ws[k].end_time by {
        assert(ws[k] == words@[k]@);
    }
    let mut total: u64 = 0;
    let mut j: usize = 0;
    while j < words.len()
        invariant
            j <= words@.len(),
            ws == words@.map_values(|w: AmllWord| w@),
            forall|k: int| 0 <= k < ws.len() ==> #[trigger] ws[k].start_time <= ws[k].end_time,
            forall|k: int| 0 <= k < words@.len() ==> #[trigger] words@[k].start_time <= words@[k].end_time,
            total == duration_sum(ws.take(j as int)),
        decreases words@.len() - j,
    {
        assert(ws.take(j + 1).drop_last() =~= ws.take(j as int));
        assert(ws[j as int] == words@[j as int]@);
        let d = words[j].end_time - words[j].start_time;
        match total.checked_add(d) {
            Some(t) => total = t,
            None => {
                proof {
                    lemma_duration_sum_prefix(ws, j + 1, ws.len() as int);
                }
                assert(ws.take(ws.len() as int) =~= ws);
                return false;
            },
        }
        j = j + 1;
    }
    assert(ws.take(ws.len() as int) =~= ws);
    true
}

/// Whether the words of the lines can be written in every format (see
/// `durations_fit`).
pub fn durations_valid(lines: &Vec<AmllLine>) -> (r: bool)
    ensures
        r == durations_fit(lines_view(lines@)),
{
    let ghost lv = lines_view(lines@);
    let mut i: usize = 0;
    while i < lines.len()
        invariant
            i <= lines@.len(),
            lv == lines_view(lines@),
            forall|a: int, j: int|
                0 <= a < i && 0 <= j < lv[a].words.len() ==> #[trigger] lv[a].words[j].start_time
                    <= lv[a].words[j].end_time,
        decreases lines@.len() - i,
    {
        let bad = first_unordered(&lines[i].words);
        assert(lv[i as int].words == lines@[i as int].words@.map_values(|w: AmllWord| w@));
        match bad {
            Some(k) => {
                assert(lv[i as int].words[k as int] == lines@[i as int].words@[k as int]@);
                assert(lv[i as int].words[k as int].start_time > lv[i as int].words[k as int].end_time);
                return false;
            },
            None => {},
        }
        assert forall|j: int| 0 <= j < lv[i as int].words.len() implies #[trigger] lv[i as int].words[j].start_time
            <= lv[i as int].words[j].end_time by {
            assert(lv[i as int].words[j] == lines@[i as int].words@[j]@);
        }
        i = i + 1;
    }
    let mut i: usize = 0;
    while i < lines.len()
        invariant
            i <= lines@.len(),
            lv == lines_view(lines@),
            words_ordered(lv),
            forall|a: int| 0 <= a < i ==> duration_sum(#[trigger] lv[a].words) <= u64::MAX,
        decreases lines@.len() - i,
    {
        assert(lv[i as int].words == lines@[i as int].words@.map_values(|w: AmllWord| w@));
        assert forall|k: int| 0 <= k < lines@[i as int].words@.len() implies #[trigger] lines@[i as int].words@[k].start_time
            <= lines@[i as int].words@[k].end_time by {
            assert(lv[i as int].words[k] == lines@[i as int].words@[k]@);
            assert(lv[i as int].words[k].start_time <= lv[i as int].words[k].end_time);
        }
        if !durations_add_up(&lines[i].words) {
            return false;
        }
        i = i + 1;
    }
    true
}

/// With ordered words, the durations of a prefix add up to no more than
/// those of a longer prefix.
proof fn lemma_duration_sum_prefix(ws: Seq<AmllWordView>, a: int, b: int)
    requires
        0 <= a <= b <= ws.len(),
        forall|k: int| 0 <= k < ws.len() ==> #[trigger] ws[k].start_time <= ws[k].end_time,
    ensures
        duration_sum(ws.take(a)) <= duration_sum(ws.take(b)),
    decreases b - a,
{
    if a < b {
        lemma_duration_sum_prefix(ws, a, b - 1);
        assert(ws.take(b).drop_last() =~= ws.take(b - 1));
    }
}

/// A lyric in every format the folders hold besides TTML.
#[derive(Debug)]
pub struct LyricFiles {
    pub lrc: String,
    pub yrc: String,
    pub lys: String,
    pub qrc: String,
    pub eslrc: String,
}

/// The lines written in LRC, YRC, LYS, QRC and ESLRC by `amll_lyric`.
pub fn stringify_all(lines: &Vec<AmllLine>) -> (r: LyricFiles)
    requires
        durations_fit(lines_view(lines@)),
    ensures
        r.lrc@ == amll_lrc(lines_view(lines@)),
        r.yrc@ == amll_yrc(lines_view(lines@)),
        r.lys@ == amll_lys(lines_view(lines@)),
        r.qrc@ == amll_qrc(lines_view(lines@)),
        r.eslrc@ == amll_eslrc(lines_view(lines@)),
{
    LyricFiles {
        lrc: stringify_lrc(lines.as_slice()),
        yrc: stringify_yrc(lines.as_slice()),
        lys: stringify_lys(lines.as_slice()),
        qrc: stringify_qrc(lines.as_slice()),
        eslrc: stringify_eslrc(lines.as_slice()),
    }
}

// ---------------------------------------------------------------------------
// Stored lyric files
// ---------------------------------------------------------------------------

/// `x` inserted into `s` before the first entry whose key comes after its
/// key in code-point order.
pub open spec fn insert_by_key(s: Seq<(String, Vec<String>)>, x: (String, Vec<String>)) -> Seq<(String, Vec<String>)>
    decreases s.len(),
{
    if s.len() == 0 {
        seq![x]
    } else if text_lt(x.0@, s[0].0@) {
        seq![x] + s
    } else {
        seq![s[0]] + insert_by_key(s.drop_first(), x)
    }
}

/// The entries ordered by key in code-point order; entries with equal keys
/// keep their order (a stable sort).
pub open spec fn sort_by_key(s: Seq<(String, Vec<String>)>) -> Seq<(String, Vec<String>)>
    decreases s.len(),
{
    if s.len() == 0 {
        Seq::empty()
    } else {
        insert_by_key(sort_by_key(s.drop_last()), s.last())
    }
}

/// Inserting at the first later key is inserting at `k`.
proof fn lemma_insert_key_at(s: Seq<(String, Vec<String>)>, x: (String, Vec<String>), k: int)
    requires
        0 <= k <= s.len(),
        forall|j: int| 0 <= j < k ==> !text_lt(x.0@, #[trigger] s[j].0@),
        k < s.len() ==> text_lt(x.0@, s[k].0@),
    ensures
        insert_by_key(s, x) == s.take(k) + seq![x] + s.skip(k),
    decreases s.len(),
{
    if s.len() == 0 {
        assert(s.take(k) + seq![x] + s.skip(k) =~= seq![x]);
    } else if k == 0 {
        assert(s.take(k) + seq![x] + s.skip(k) =~= seq![x] + s);
    } else {
        let t = s.drop_first();
        assert forall|j: int| 0 <= j < k - 1 implies !text_lt(x.0@, #[trigger] t[j].0@) by {
            assert(t[j] == s[j + 1]);
        }
        if k - 1 < t.len() {
            assert(t[k - 1] == s[k]);
        }
        lemma_insert_key_at(t, x, k - 1);
        assert(seq![s[0]] + (t.take(k - 1) + seq![x] + t.skip(k - 1)) =~= s.take(k) + seq![x] + s.skip(k));
    }
}

/// Whether the entries come in order of key.
pub open spec fn keys_ordered(s: Seq<(String, Vec<String>)>) -> bool {
    forall|i: int, j: int| 0 <= i <= j < s.len() ==> !text_lt(#[trigger] s[j].0@, #[trigger] s[i].0@)
}

/// Inserting an entry keeps the order and adds exactly that entry.
#[verifier::spinoff_prover]
pub proof fn lemma_insert_by_key(s: Seq<(String, Vec<String>)>, x: (String, Vec<String>))
    requires
        keys_ordered(s),
    ensures
        keys_ordered(insert_by_key(s, x)),
        insert_by_key(s, x).to_multiset() == s.to_multiset().insert(x),
    decreases s.len(),
{
    broadcast use vstd::seq_lib::group_to_multiset_ensures;
    if s.len() == 0 {
        crate::metadata::lemma_text_lt_irrefl(x.0@);
        assert(seq![x] =~= Seq::<(String, Vec<String>)>::empty().push(x));
    } else if text_lt(x.0@, s[0].0@) {
        let r = seq![x] + s;
        assert forall|i: int, j: int| 0 <= i <= j < r.len() implies !text_lt(#[trigger] r[j].0@, #[trigger] r[i].0@) by {
            if i > 0 {
                assert(r[i] == s[i - 1]);
                assert(r[j] == s[j - 1]);
            } else if j > 0 {
                assert(r[j] == s[j - 1]);
                assert(!text_lt(s[j - 1].0@, s[0].0@));
                lemma_text_lt_total(s[j - 1].0@, s[0].0@);
                lemma_text_lt_total(x.0@, s[j - 1].0@);
                if text_lt(s[j - 1].0@, x.0@) {
                    lemma_text_lt_trans(s[j - 1].0@, x.0@, s[0].0@);
                }
            } else {
                crate::metadata::lemma_text_lt_irrefl(x.0@);
            }
        }
        vstd::seq_lib::lemma_multiset_commutative(seq![x], s);
        assert(seq![x].to_multiset() =~= Seq::<(String, Vec<String>)>::empty().push(x).to_multiset()) by {
            assert(seq![x] =~= Seq::<(String, Vec<String>)>::empty().push(x));
        }
    } else {
        let t = s.drop_first();
        assert forall|i: int, j: int| 0 <= i <= j < t.len() implies !text_lt(#[trigger] t[j].0@, #[trigger] t[i].0@) by {
            assert(t[i] == s[i + 1]);
            assert(t[j] == s[j + 1]);
        }
        lemma_insert_by_key(t, x);
        let u = insert_by_key(t, x);
        let r = seq![s[0]] + u;
        assert(r == insert_by_key(s, x));
        assert forall|k: int| 0 <= k < u.len() implies !text_lt(#[trigger] u[k].0@, s[0].0@) by {
            assert(u.to_multiset().count(u[k]) > 0);
            assert(t.to_multiset().insert(x).count(u[k]) > 0);
            if u[k] != x {
                assert(t.to_multiset().count(u[k]) > 0);
                assert(t.contains(u[k]));
                let m = choose|m: int| 0 <= m < t.len() && t[m] == u[k];
                assert(t[m] == s[m + 1]);
            }
        }
        assert forall|i: int, j: int| 0 <= i <= j < r.len() implies !text_lt(#[trigger] r[j].0@, #[trigger] r[i].0@) by {
            if i > 0 {
                assert(r[i] == u[i - 1]);
                assert(r[j] == u[j - 1]);
            } else if j > 0 {
                assert(r[j] == u[j - 1]);
            } else {
                assert(r[0] == s[0]);
                crate::metadata::lemma_text_lt_irrefl(s[0].0@);
            }
        }
        vstd::seq_lib::lemma_multiset_commutative(seq![s[0]], u);
        vstd::seq_lib::lemma_multiset_commutative(seq![s[0]], t);
        assert(seq![s[0]] + t =~= s);
    }
}

/// The stable sort orders the entries by key and keeps each of them.
pub proof fn lemma_sort_by_key(s: Seq<(String, Vec<String>)>)
    ensures
        keys_ordered(sort_by_key(s)),
        sort_by_key(s).to_multiset() == s.to_multiset(),
    decreases s.len(),
{
    broadcast use vstd::seq_lib::group_to_multiset_ensures;
    if s.len() > 0 {
        lemma_sort_by_key(s.drop_last());
        lemma_insert_by_key(sort_by_key(s.drop_last()), s.last());
        assert(s.drop_last().push(s.last()) =~= s);
    }
}

/// Orders metadata entries by key, stably (see `sort_by_key`).
pub fn sort_metadata(entries: Vec<(String, Vec<String>)>) -> (r: Vec<(String, Vec<String>)>)
    ensures
        r@ == sort_by_key(entries@),
{
    let mut rest = entries;
    let ghost all = rest@;
    let total = rest.len();
    let mut out: Vec<(String, Vec<String>)> = Vec::new();
    let mut done: usize = 0;
    while rest.len() > 0
        invariant
            done + rest@.len() == all.len(),
            all.len() == total,
            rest@ == all.skip(done as int),
            out@ == sort_by_key(all.take(done as int)),
        decreases rest@.len(),
    {
        let x = rest.remove(0);
        proof {
            assert(x == all[done as int]);
            assert(all.take(done + 1).drop_last() =~= all.take(done as int));
            assert(rest@ =~= all.skip(done + 1));
        }
        let mut k: usize = 0;
        while k < out.len() && !text_less(x.0.as_str(), out[k].0.as_str())
            invariant
                k <= out@.len(),
                forall|j: int| 0 <= j < k ==> !text_lt(x.0@, #[trigger] out@[j].0@),
            decreases out@.len() - k,
        {
            k = k + 1;
        }
        proof {
            lemma_insert_key_at(out@, x, k as int);
        }
        let ghost before = out@;
        out.insert(k, x);
        assert(out@ =~= before.take(k as int) + seq![x] + before.skip(k as int));
        done = done + 1;
    }
    assert(all.take(all.len() as int) =~= all);
    out
}

/// A stored lyric file read for rebuilding: its AMLL lines and its raw
/// metadata ordered by key.
#[derive(Debug)]
pub struct ParsedLyric {
    /// The AMLL lines of the file.
    pub lines: Vec<AmllLine>,
    /// The raw metadata, ordered by key.
    pub metadata: Vec<(String, Vec<String>)>,
}

/// The AMLL lines of parsed lyrics and their metadata ordered by key.
pub fn parsed_lyric_of(parsed: ParsedSourceData) -> (r: ParsedLyric)
    ensures
        lines_view(r.lines@) == lines_to_amll(parsed.lines@),
        r.metadata@ == sort_by_key(parsed.raw_metadata@),
{
    let lines = amll_lines_of(parsed.lines.as_slice());
    let ParsedSourceData { raw_metadata, .. } = parsed;
    ParsedLyric { lines, metadata: sort_metadata(raw_metadata) }
}

/// `p` is what `parsed_lyric_of` gives of the parsed lyrics `d`, whose
/// lines each hold something.
pub open spec fn lyric_of_parse(p: ParsedLyric, d: ParsedSourceData) -> bool {
    &&& lines_view(p.lines@) == lines_to_amll(d.lines@)
    &&& p.metadata@ == sort_by_key(d.raw_metadata@)
    &&& crate::parser::lines_have_data(d.lines@)
}

/// Reads a stored lyric file (see `parsed_lyric_of`); a file that cannot be
/// parsed gives the parser's error.
pub fn process_lyric_content(file_content: &str) -> (r: Result<ParsedLyric, ConvertError>)
    ensures
        r matches Ok(p) ==> keys_ordered(p.metadata@) && exists|d: ParsedSourceData| #[trigger] lyric_of_parse(p, d),
        r matches Err(e) ==> crate::parser::is_parse_error(e),
{
    let parse_opts = TtmlParsingOptions::default();
    match parse_ttml(file_content, &parse_opts) {
        Ok(parsed) => {
            proof {
                lemma_sort_by_key(parsed.raw_metadata@);
            }
            let ghost d = parsed;
            let p = parsed_lyric_of(parsed);
            assert(lyric_of_parse(p, d));
            Ok(p)
        },
        Err(e) => Err(e),
    }
}

/// The text of a file name before its first `-` (all of it without one).
pub open spec fn before_dash(name: Seq<char>) -> Seq<char> {
    match index_of(name, '-') {
        Some(i) => name.take(i as int),
        None => name,
    }
}

/// The number a stored lyric file's name starts with: the text before its
/// first `-`, read as a 64-bit number.
pub fn lyric_file_id(file_name: &str) -> (r: Option<u64>)
    ensures
        match parse_u64_spec(before_dash(file_name@)) {
            Some(n) => r matches Some(m) && m == n,
            None => r is None,
        },
{
    let v = chars_of(file_name);
    let end = match find_char(&v, 0, v.len(), '-') {
        Some(i) => i,
        None => v.len(),
    };
    assert(v@.subrange(0, v@.len() as int) =~= v@);
    assert(v@.subrange(0, end as int) =~= before_dash(file_name@));
    match parse_u64_range(&v, 0, end) {
        Some(n) => Some(n),
        None => None,
    }
}

/// `x` inserted into `s` before the first file whose number is larger.
pub open spec fn insert_by_id(s: Seq<(u64, usize)>, x: (u64, usize)) -> Seq<(u64, usize)>
    decreases s.len(),
{
    if s.len() == 0 {
        seq![x]
    } else if x.0 < s[0].0 {
        seq![x] + s
    } else {
        seq![s[0]] + insert_by_id(s.drop_first(), x)
    }
}

/// The files ordered by number, files with equal numbers in their order.
pub open spec fn sort_by_id(s: Seq<(u64, usize)>) -> Seq<(u64, usize)>
    decreases s.len(),
{
    if s.len() == 0 {
        Seq::empty()
    } else {
        insert_by_id(sort_by_id(s.drop_last()), s.last())
    }
}

/// The files among the first `n` whose names start with a number, each
/// with its number and position, in order.
pub open spec fn numbered_files(names: Seq<String>, n: int) -> Seq<(u64, usize)>
    decreases n,
{
    if n <= 0 {
        Seq::empty()
    } else {
        numbered_files(names, n - 1) + match parse_u64_spec(before_dash(names[n - 1]@)) {
            Some(id) => seq![(id as u64, (n - 1) as usize)],
            None => Seq::empty(),
        }
    }
}

/// Inserting at the first larger number is inserting at `k`.
proof fn lemma_insert_id_at(s: Seq<(u64, usize)>, x: (u64, usize), k: int)
    requires
        0 <= k <= s.len(),
        forall|j: int| 0 <= j < k ==> #[trigger] s[j].0 <= x.0,
        k < s.len() ==> x.0 < s[k].0,
    ensures
        insert_by_id(s, x) == s.take(k) + seq![x] + s.skip(k),
    decreases s.len(),
{
    if s.len() == 0 {
        assert(s.take(k) + seq![x] + s.skip(k) =~= seq![x]);
    } else if k == 0 {
        assert(s.take(k) + seq![x] + s.skip(k) =~= seq![x] + s);
    } else {
        let t = s.drop_first();
        assert forall|j: int| 0 <= j < k - 1 implies #[trigger] t[j].0 <= x.0 by {
            assert(t[j] == s[j + 1]);
        }
        if k - 1 < t.len() {
            assert(t[k - 1] == s[k]);
        }
        lemma_insert_id_at(t, x, k - 1);
        assert(seq![s[0]] + (t.take(k - 1) + seq![x] + t.skip(k - 1)) =~= s.take(k) + seq![x] + s.skip(k));
    }
}

/// The order in which stored lyric files are read: the positions of the
/// files whose names start with a number (see `lyric_file_id`), ordered by
/// that number, files with equal numbers in their given order.
pub fn order_raw_lyrics(file_names: &Vec<String>) -> (r: Vec<usize>)
    ensures
        r@ == sort_by_id(numbered_files(file_names@, file_names@.len() as int)).map_values(|e: (u64, usize)| e.1),
{
    let mut sorted: Vec<(u64, usize)> = Vec::new();
    let mut i: usize = 0;
    while i < file_names.len()
        invariant
            i <= file_names@.len(),
            sorted@ == sort_by_id(numbered_files(file_names@, i as int)),
        decreases file_names@.len() - i,
    {
        match lyric_file_id(file_names[i].as_str()) {
            Some(id) => {
                let x = (id, i);
                let mut k: usize = 0;
                while k < sorted.len() && sorted[k].0 <= id
                    invariant
                        k <= sorted@.len(),
                        forall|j: int| 0 <= j < k ==> #[trigger] sorted@[j].0 <= id,
                    decreases sorted@.len() - k,
                {
                    k = k + 1;
                }
                proof {
                    lemma_insert_id_at(sorted@, x, k as int);
                    assert(numbered_files(file_names@, i + 1) =~= numbered_files(file_names@, i as int).push(x));
                    assert(numbered_files(file_names@, i + 1).drop_last() =~= numbered_files(file_names@, i as int));
                }
                let ghost before = sorted@;
                sorted.insert(k, x);
                assert(sorted@ =~= before.take(k as int) + seq![x] + before.skip(k as int));
            },
            None => {
                assert(numbered_files(file_names@, i + 1) =~= numbered_files(file_names@, i as int));
            },
        }
        i = i + 1;
    }
    let ghost all = sorted@;
    let mut out: Vec<usize> = Vec::new();
    let mut j: usize = 0;
    while j < sorted.len()
        invariant
            j <= sorted@.len(),
            all == sorted@,
            out@ == all.take(j as int).map_values(|e: (u64, usize)| e.1),
        decreases sorted@.len() - j,
    {
        out.push(sorted[j].1);
        assert(out@ =~= all.take(j + 1).map_values(|e: (u64, usize)| e.1));
        j = j + 1;
    }
    assert(all.take(all.len() as int) =~= all);
    out
}

// ---------------------------------------------------------------------------
// Contributors
// ---------------------------------------------------------------------------

/// A contributor of lyrics: a GitHub id, the login first seen with it, and
/// how many lyric files credit it.
#[derive(Debug)]
pub struct Contributor {
    /// The numeric GitHub id, as text.
    pub github_id: String,
    /// The GitHub login, if a file gave one.
    pub github_login: Option<String>,
    /// The number of credits.
    pub count: usize,
}

/// The value of a contributor.
pub struct ContributorView {
    pub id: Seq<char>,
    pub login: Option<Seq<char>>,
    pub count: nat,
}

impl View for Contributor {
    type V = ContributorView;

    open spec fn view(&self) -> ContributorView {
        ContributorView { id: self.github_id@, login: opt_text(self.github_login), count: self.count as nat }
    }
}

/// The values of contributors.
pub open spec fn contributors_view(cs: Seq<Contributor>) -> Seq<ContributorView> {
    cs.map_values(|c: Contributor| c@)
}

/// The values under the first entry named `key`, if there is one.
pub open spec fn entry_values(md: Seq<(String, Vec<String>)>, key: Seq<char>) -> Option<Seq<Seq<char>>>
    decreases md.len(),
{
    if md.len() == 0 {
        None
    } else if md[0].0@ == key {
        Some(texts(md[0].1@))
    } else {
        entry_values(md.drop_first(), key)
    }
}

/// The position of the contributor with id `id`.
pub open spec fn contributor_index(st: Seq<ContributorView>, id: Seq<char>) -> Option<int>
    decreases st.len(),
{
    if st.len() == 0 {
        None
    } else if st.last().id == id {
        Some(st.len() - 1)
    } else {
        contributor_index(st.drop_last(), id)
    }
}

/// One credit for `id`: a new contributor counts one; a known one counts
/// one more and takes `login` if it had none.
pub open spec fn credit(st: Seq<ContributorView>, id: Seq<char>, login: Option<Seq<char>>) -> Seq<ContributorView> {
    match contributor_index(st, id) {
        Some(k) => st.update(
            k,
            ContributorView {
                id,
                login: if st[k].login is None && login is Some {
                    login
                } else {
                    st[k].login
                },
                count: st[k].count + 1,
            },
        ),
        None => st.push(ContributorView { id, login, count: 1 }),
    }
}

/// The credits of the first `n` author ids of a file, each with the login
/// at the same position.
pub open spec fn credit_ids(st: Seq<ContributorView>, ids: Seq<Seq<char>>, logins: Option<Seq<Seq<char>>>, n: int) -> Seq<ContributorView>
    decreases n,
{
    if n <= 0 {
        st
    } else {
        credit(
            credit_ids(st, ids, logins, n - 1),
            ids[n - 1],
            match logins {
                Some(l) => if n - 1 < l.len() {
                    Some(l[n - 1])
                } else {
                    None
                },
                None => None,
            },
        )
    }
}

/// The credits a file's metadata gives: one per value of its first
/// `ttmlAuthorGithub` entry.
pub open spec fn credit_file(st: Seq<ContributorView>, md: Seq<(String, Vec<String>)>) -> Seq<ContributorView> {
    match entry_values(md, "ttmlAuthorGithub"@) {
        Some(ids) => credit_ids(st, ids, entry_values(md, "ttmlAuthorGithubLogin"@), ids.len() as int),
        None => st,
    }
}

/// The credits of the first `n` files, in order.
pub open spec fn credit_files(files: Seq<Vec<(String, Vec<String>)>>, n: int) -> Seq<ContributorView>
    decreases n,
{
    if n <= 0 {
        Seq::empty()
    } else {
        credit_file(credit_files(files, n - 1), files[n - 1]@)
    }
}

/// The number of author ids in the first `n` files.
pub open spec fn credit_total(files: Seq<Vec<(String, Vec<String>)>>, n: int) -> int
    decreases n,
{
    if n <= 0 {
        0
    } else {
        credit_total(files, n - 1) + match entry_values(files[n - 1]@, "ttmlAuthorGithub"@) {
            Some(ids) => ids.len() as int,
            None => 0,
        }
    }
}

/// The values under the first entry named `key` (see `entry_values`).
fn find_entry<'a>(md: &'a Vec<(String, Vec<String>)>, key: &str) -> (r: Option<&'a Vec<String>>)
    ensures
        match entry_values(md@, key@) {
            Some(v) => r matches Some(x) && texts(x@) == v,
            None => r is None,
        },
{
    let mut i: usize = 0;
    assert(md@.skip(0) =~= md@);
    while i < md.len()
        invariant
            i <= md@.len(),
            entry_values(md@, key@) == entry_values(md@.skip(i as int), key@),
        decreases md@.len() - i,
    {
        assert(md@.skip(i as int)[0] == md@[i as int]);
        assert(md@.skip(i as int).drop_first() =~= md@.skip(i + 1));
        if crate::text::str_eq(md[i].0.as_str(), key) {
            return Some(&md[i].1);
        }
        i = i + 1;
    }
    assert(md@.skip(md@.len() as int) =~= Seq::<(String, Vec<String>)>::empty());
    None
}

/// The position of the contributor with id `id` (see `contributor_index`).
fn find_contributor(cs: &Vec<Contributor>, id: &str) -> (r: Option<usize>)
    ensures
        match contributor_index(contributors_view(cs@), id@) {
            Some(k) => r matches Some(x) && x == k,
            None => r is None,
        },
{
    let ghost v = contributors_view(cs@);
    let mut i: usize = cs.len();
    assert(v.take(v.len() as int) =~= v);
    while i > 0
        invariant
            i <= cs@.len(),
            v == contributors_view(cs@),
            contributor_index(v, id@) == contributor_index(v.take(i as int), id@),
        decreases i,
    {
        assert(v.take(i as int).drop_last() =~= v.take(i - 1));
        assert(v.take(i as int).last() == cs@[i - 1]@);
        if crate::text::str_eq(cs[i - 1].github_id.as_str(), id) {
            return Some(i - 1);
        }
        i = i - 1;
    }
    None
}

/// Every contributor counts at most `n`.
pub open spec fn counts_below(st: Seq<ContributorView>, n: int) -> bool {
    forall|k: int| 0 <= k < st.len() ==> #[trigger] st[k].count <= n
}

/// Credits `id` once (see `credit`).
fn credit_one(cs: &mut Vec<Contributor>, id: &String, login: Option<&String>, Ghost(bound): Ghost<int>)
    requires
        counts_below(contributors_view(old(cs)@), bound),
        0 <= bound < usize::MAX,
    ensures
        contributors_view(final(cs)@) == credit(contributors_view(old(cs)@), id@, match login {
            Some(l) => Some(l@),
            None => None,
        }),
        counts_below(contributors_view(final(cs)@), bound + 1),
{
    let ghost before = contributors_view(cs@);
    let ghost lv: Option<Seq<char>> = match login {
        Some(l) => Some(l@),
        None => None,
    };
    match find_contributor(cs, id.as_str()) {
        Some(k) => {
            proof {
                lemma_contributor_index(before, id@);
            }
            let old_login = match &cs[k].github_login {
                Some(l) => Some(l.clone()),
                None => None,
            };
            let new_login = match old_login {
                Some(l) => Some(l),
                None => match login {
                    Some(l) => Some(l.clone()),
                    None => None,
                },
            };
            let count = cs[k].count + 1;
            let c = Contributor { github_id: id.clone(), github_login: new_login, count };
            cs.set(k, c);
            assert(contributors_view(cs@) =~= credit(before, id@, lv));
            assert forall|j: int| 0 <= j < contributors_view(cs@).len() implies #[trigger] contributors_view(cs@)[j].count
                <= bound + 1 by {
                if j != k {
                    assert(contributors_view(cs@)[j] == before[j]);
                }
            }
        },
        None => {
            let c = Contributor {
                github_id: id.clone(),
                github_login: match login {
                    Some(l) => Some(l.clone()),
                    None => None,
                },
                count: 1,
            };
            cs.push(c);
            assert(contributors_view(cs@) =~= credit(before, id@, lv));
            assert forall|j: int| 0 <= j < contributors_view(cs@).len() implies #[trigger] contributors_view(cs@)[j].count
                <= bound + 1 by {
                if j < before.len() {
                    assert(contributors_view(cs@)[j] == before[j]);
                }
            }
        },
    }
}

/// What `contributor_index` returns.
proof fn lemma_contributor_index(st: Seq<ContributorView>, id: Seq<char>)
    ensures
        match contributor_index(st, id) {
            Some(k) => 0 <= k < st.len() && st[k].id == id,
            None => forall|j: int| 0 <= j < st.len() ==> #[trigger] st[j].id != id,
        },
    decreases st.len(),
{
    if st.len() > 0 {
        lemma_contributor_index(st.drop_last(), id);
        if st.last().id != id {
            assert forall|j: int| 0 <= j < st.len() - 1 implies st[j] == st.drop_last()[j] by {}
        }
    }
}

/// Whether the author ids of all files can be counted in a `usize`.
pub fn credits_fit(files: &Vec<Vec<(String, Vec<String>)>>) -> (r: bool)
    ensures
        r == (credit_total(files@, files@.len() as int) < usize::MAX),
{
    proof {
        reveal_strlit("ttmlAuthorGithub");
    }
    let mut total: usize = 0;
    let mut i: usize = 0;
    while i < files.len()
        invariant
            i <= files@.len(),
            total == credit_total(files@, i as int),
            total < usize::MAX,
        decreases files@.len() - i,
    {
        let n = match find_entry(&files[i], "ttmlAuthorGithub") {
            Some(ids) => ids.len(),
            None => 0,
        };
        if total >= usize::MAX - n {
            proof {
                lemma_credit_total_grows(files@, i + 1, files@.len() as int);
            }
            return false;
        }
        total = total + n;
        i = i + 1;
    }
    true
}

/// Adding files adds credits.
proof fn lemma_credit_total_grows(files: Seq<Vec<(String, Vec<String>)>>, a: int, b: int)
    requires
        0 <= a <= b,
    ensures
        credit_total(files, a) <= credit_total(files, b),
    decreases b - a,
{
    if a < b {
        lemma_credit_total_grows(files, a, b - 1);
    }
}

/// The contributors credited by the files' metadata, in order of first
/// credit (see `credit_files`).
pub fn collect_contributors(files: &Vec<Vec<(String, Vec<String>)>>) -> (r: Vec<Contributor>)
    requires
        credit_total(files@, files@.len() as int) < usize::MAX,
    ensures
        contributors_view(r@) == credit_files(files@, files@.len() as int),
        ids_distinct(contributors_view(r@)),
{
    proof {
        lemma_contributors_distinct(files@, files@.len() as int);
    }
    let mut cs: Vec<Contributor> = Vec::new();
    let mut i: usize = 0;
    assert(contributors_view(cs@) =~= Seq::<ContributorView>::empty());
    while i < files.len()
        invariant
            i <= files@.len(),
            contributors_view(cs@) == credit_files(files@, i as int),
            counts_below(contributors_view(cs@), credit_total(files@, i as int)),
            credit_total(files@, files@.len() as int) < usize::MAX,
        decreases files@.len() - i,
    {
        proof {
            lemma_credit_total_grows(files@, i + 1, files@.len() as int);
            lemma_credit_total_grows(files@, 0, i as int);
        }
        let md = &files[i];
        match find_entry(md, "ttmlAuthorGithub") {
            Some(ids) => {
                let logins = find_entry(md, "ttmlAuthorGithubLogin");
                let ghost lv: Option<Seq<Seq<char>>> = match logins {
                    Some(l) => Some(texts(l@)),
                    None => None,
                };
                let ghost st0 = contributors_view(cs@);
                let ghost base = credit_total(files@, i as int);
                let mut j: usize = 0;
                while j < ids.len()
                    invariant
                        j <= ids@.len(),
                        contributors_view(cs@) == credit_ids(st0, texts(ids@), lv, j as int),
                        counts_below(contributors_view(cs@), base + j),
                        base + ids@.len() < usize::MAX,
                        0 <= base,
                        lv == match logins {
                            Some(l) => Some(texts(l@)),
                            None => None::<Seq<Seq<char>>>,
                        },
                    decreases ids@.len() - j,
                {
                    let login: Option<&String> = match logins {
                        Some(l) => if j < l.len() {
                            Some(&l[j])
                        } else {
                            None
                        },
                        None => None,
                    };
                    credit_one(&mut cs, &ids[j], login, Ghost(base + j));
                    j = j + 1;
                }
            },
            None => {},
        }
        i = i + 1;
    }
    cs
}

/// Whether `x` is listed before `y`: more credits first, then by id in
/// code-point order.
pub open spec fn ranks_before(x: ContributorView, y: ContributorView) -> bool {
    x.count > y.count || (x.count == y.count && text_lt(x.id, y.id))
}

/// `x` inserted into `s` before the first contributor it ranks before.
pub open spec fn insert_ranked(s: Seq<ContributorView>, x: ContributorView) -> Seq<ContributorView>
    decreases s.len(),
{
    if s.len() == 0 {
        seq![x]
    } else if ranks_before(x, s[0]) {
        seq![x] + s
    } else {
        seq![s[0]] + insert_ranked(s.drop_first(), x)
    }
}

/// The contributors in rank order (most credits first, then by id).
pub open spec fn rank_contributors(s: Seq<ContributorView>) -> Seq<ContributorView>
    decreases s.len(),
{
    if s.len() == 0 {
        Seq::empty()
    } else {
        insert_ranked(rank_contributors(s.drop_last()), s.last())
    }
}

/// Inserting before the first ranked-after contributor is inserting at `k`.
proof fn lemma_insert_ranked_at(s: Seq<ContributorView>, x: ContributorView, k: int)
    requires
        0 <= k <= s.len(),
        forall|j: int| 0 <= j < k ==> !ranks_before(x, #[trigger] s[j]),
        k < s.len() ==> ranks_before(x, s[k]),
    ensures
        insert_ranked(s, x) == s.take(k) + seq![x] + s.skip(k),
    decreases s.len(),
{
    if s.len() == 0 {
        assert(s.take(k) + seq![x] + s.skip(k) =~= seq![x]);
    } else if k == 0 {
        assert(s.take(k) + seq![x] + s.skip(k) =~= seq![x] + s);
    } else {
        let t = s.drop_first();
        assert forall|j: int| 0 <= j < k - 1 implies !ranks_before(x, #[trigger] t[j]) by {
            assert(t[j] == s[j + 1]);
        }
        if k - 1 < t.len() {
            assert(t[k - 1] == s[k]);
        }
        lemma_insert_ranked_at(t, x, k - 1);
        assert(seq![s[0]] + (t.take(k - 1) + seq![x] + t.skip(k - 1)) =~= s.take(k) + seq![x] + s.skip(k));
    }
}

/// Whether `a` ranks before `b` (see `ranks_before`).
fn rank_less(a: &Contributor, b: &Contributor) -> (r: bool)
    ensures
        r == ranks_before(a@, b@),
{
    a.count > b.count || (a.count == b.count && text_less(a.github_id.as_str(), b.github_id.as_str()))
}

/// Puts the contributors in rank order (see `rank_contributors`).
pub fn sort_contributors(contributors: Vec<Contributor>) -> (r: Vec<Contributor>)
    ensures
        contributors_view(r@) == rank_contributors(contributors_view(contributors@)),
        in_rank_order(contributors_view(r@)),
{
    proof {
        lemma_rank_contributors(contributors_view(contributors@));
    }
    let mut rest = contributors;
    let ghost all = contributors_view(rest@);
    let total = rest.len();
    let mut out: Vec<Contributor> = Vec::new();
    let mut done: usize = 0;
    assert(contributors_view(out@) =~= Seq::<ContributorView>::empty());
    while rest.len() > 0
        invariant
            done + rest@.len() == all.len(),
            all.len() == total,
            contributors_view(rest@) == all.skip(done as int),
            contributors_view(out@) == rank_contributors(all.take(done as int)),
        decreases rest@.len(),
    {
        let ghost rest_before = rest@;
        let x = rest.remove(0);
        proof {
            assert(contributors_view(rest_before)[0] == x@);
            assert(x@ == all[done as int]);
            assert(all.take(done + 1).drop_last() =~= all.take(done as int));
            assert forall|j: int| 0 <= j < rest@.len() implies #[trigger] contributors_view(rest@)[j] == all.skip(done + 1)[j] by {
                assert(rest@[j] == rest_before[j + 1]);
                assert(contributors_view(rest_before)[j + 1] == all.skip(done as int)[j + 1]);
            }
            assert(contributors_view(rest@) =~= all.skip(done + 1));
        }
        let mut k: usize = 0;
        while k < out.len() && !rank_less(&x, &out[k])
            invariant
                k <= out@.len(),
                forall|j: int| 0 <= j < k ==> !ranks_before(x@, #[trigger] contributors_view(out@)[j]),
            decreases out@.len() - k,
        {
            assert(contributors_view(out@)[k as int] == out@[k as int]@);
            k = k + 1;
        }
        proof {
            if k < out@.len() {
                assert(contributors_view(out@)[k as int] == out@[k as int]@);
            }
            lemma_insert_ranked_at(contributors_view(out@), x@, k as int);
        }
        let ghost before = contributors_view(out@);
        out.insert(k, x);
        assert(contributors_view(out@) =~= before.take(k as int) + seq![x@] + before.skip(k as int));
        done = done + 1;
    }
    assert(all.take(all.len() as int) =~= all);
    out
}

// ---------------------------------------------------------------------------
// The contributors page
// ---------------------------------------------------------------------------

/// The rank as shown: a medal for the first three, else the number.
pub open spec fn rank_display(rank: nat) -> Seq<char> {
    if rank == 1 {
        "🥇"@
    } else if rank == 2 {
        "🥈"@
    } else if rank == 3 {
        "🥉"@
    } else {
        decimal(rank)
    }
}

/// The small avatar of a GitHub id.
pub open spec fn avatar_html(id: Seq<char>) -> Seq<char> {
    "<img src=\"https://avatars.githubusercontent.com/u/"@ + id
        + "?v=4\" width=\"20\" height=\"20\" style=\"vertical-align:sub; margin-right:5px\" />"@
}

/// The contributor as shown: a link to the login's profile, else the id in code style.
pub open spec fn user_link(c: ContributorView) -> Seq<char> {
    match c.login {
        Some(l) => "["@ + l + "](https://github.com/"@ + l + ")"@,
        None => "`#"@ + c.id + "`"@,
    }
}

/// The table row of the contributor at `rank`.
pub open spec fn report_row(rank: nat, c: ContributorView) -> Seq<char> {
    "| "@ + rank_display(rank) + " | "@ + avatar_html(c.id) + user_link(c) + " | "@ + decimal(c.count) + " |\n"@
}

/// The rows of the first `n` contributors, ranked from one.
pub open spec fn report_rows(cs: Seq<ContributorView>, n: int) -> Seq<char>
    decreases n,
{
    if n <= 0 {
        Seq::empty()
    } else {
        report_rows(cs, n - 1) + report_row(n as nat, cs[n - 1])
    }
}

/// The page's head: a notice that it is generated, the title, how it is
/// ranked and when it was updated, the gallery and the table's head.
pub open spec fn report_header(updated_at: Seq<char>) -> Seq<char> {
    "<!--\n  此文件由机器人自动生成。\n  请勿手动修改此文件，否则你的更改将会被覆盖。\n  This file is automatically generated by robot.\n  DO NOT EDIT MANUALLY. Your changes will be overwritten.\n-->\n\n"@
        + "# 贡献者列表\n\n"@ + "> [!TIP]\n"@
        + "> 本排名由机器人根据已在库歌词统计元数据信息后自动生成，贡献最多排前，同贡献量排名不分先后。\n"@
        + "> \n> 最后更新于 "@ + updated_at + " (UTC+8)\n"@ + "\n"@
        + "![贡献者头像画廊](https://amll-ttml-db.stevexmh.net/contributors.png)\n\n"@
        + "| 排名 | 贡献者 | 贡献次数 |\n"@ + "| :---: | :--- | :---: |\n"@
}

/// Appends the rank as shown (see `rank_display`).
fn push_rank(out: &mut String, rank: usize)
    ensures
        final(out)@ == old(out)@ + rank_display(rank as nat),
{
    if rank == 1 {
        push_str(out, "🥇");
    } else if rank == 2 {
        push_str(out, "🥈");
    } else if rank == 3 {
        push_str(out, "🥉");
    } else {
        push_decimal(out, rank as u64);
    }
}

/// Appends the contributor as shown (see `user_link`).
fn push_user_link(out: &mut String, c: &Contributor)
    ensures
        final(out)@ == old(out)@ + user_link(c@),
{
    let ghost start = out@;
    match &c.github_login {
        Some(login) => {
            push_str(out, "[");
            push_str(out, login.as_str());
            push_str(out, "](https://github.com/");
            push_str(out, login.as_str());
            push_str(out, ")");
        },
        None => {
            push_str(out, "`#");
            push_str(out, c.github_id.as_str());
            push_str(out, "`");
        },
    }
    assert(out@ =~= start + user_link(c@));
}

/// Appends the table row of the contributor at `rank` (see `report_row`).
fn push_report_row(out: &mut String, rank: usize, c: &Contributor)
    ensures
        final(out)@ == old(out)@ + report_row(rank as nat, c@),
{
    let ghost start = out@;
    push_str(out, "| ");
    push_rank(out, rank);
    push_str(out, " | ");
    push_str(out, "<img src=\"https://avatars.githubusercontent.com/u/");
    push_str(out, c.github_id.as_str());
    push_str(out, "?v=4\" width=\"20\" height=\"20\" style=\"vertical-align:sub; margin-right:5px\" />");
    let ghost mid = out@;
    assert(mid =~= start + "| "@ + rank_display(rank as nat) + " | "@ + avatar_html(c@.id));
    push_user_link(out, c);
    push_str(out, " | ");
    push_decimal(out, c.count as u64);
    push_str(out, " |\n");
    assert(out@ =~= start + report_row(rank as nat, c@));
}

/// The contributors page: the head (see `report_header`) and one table row
/// per contributor in the given order, ranked from one.
pub fn contributors_markdown(contributors: &Vec<Contributor>, updated_at: &str) -> (r: String)
    ensures
        r@ == report_header(updated_at@) + report_rows(contributors_view(contributors@), contributors@.len() as int),
{
    let mut out = to_owned_string(
        "<!--\n  此文件由机器人自动生成。\n  请勿手动修改此文件，否则你的更改将会被覆盖。\n  This file is automatically generated by robot.\n  DO NOT EDIT MANUALLY. Your changes will be overwritten.\n-->\n\n",
    );
    push_str(&mut out, "# 贡献者列表\n\n");
    push_str(&mut out, "> [!TIP]\n");
    push_str(&mut out, "> 本排名由机器人根据已在库歌词统计元数据信息后自动生成，贡献最多排前，同贡献量排名不分先后。\n");
    push_str(&mut out, "> \n> 最后更新于 ");
    push_str(&mut out, updated_at);
    push_str(&mut out, " (UTC+8)\n");
    push_str(&mut out, "\n");
    push_str(&mut out, "![贡献者头像画廊](https://amll-ttml-db.stevexmh.net/contributors.png)\n\n");
    push_str(&mut out, "| 排名 | 贡献者 | 贡献次数 |\n");
    push_str(&mut out, "| :---: | :--- | :---: |\n");
    let ghost head = out@;
    assert(head =~= report_header(updated_at@));
    let ghost cv = contributors_view(contributors@);
    let mut i: usize = 0;
    while i < contributors.len()
        invariant
            i <= contributors@.len(),
            cv == contributors_view(contributors@),
            out@ == head + report_rows(cv, i as int),
        decreases contributors@.len() - i,
    {
        assert(cv[i as int] == contributors@[i as int]@);
        push_report_row(&mut out, i + 1, &contributors[i]);
        assert(out@ =~= head + report_rows(cv, i + 1));
        i = i + 1;
    }
    out
}

// ---------------------------------------------------------------------------
// Platform folders
// ---------------------------------------------------------------------------

/// A music platform with a lyric folder of its own.
#[derive(Debug, Clone, Copy, PartialEq, Eq, Structural, Hash)]
pub enum Platform {
    /// NetEase Cloud Music.
    Ncm,
    /// Spotify.
    Spotify,
    /// QQ Music.
    Qq,
    /// Apple Music.
    Am,
}

/// The platform a metadata key holds the ids of.
pub open spec fn platform_of(key: Seq<char>) -> Option<Platform> {
    if key == "ncmMusicId"@ {
        Some(Platform::Ncm)
    } else if key == "spotifyId"@ {
        Some(Platform::Spotify)
    } else if key == "qqMusicId"@ {
        Some(Platform::Qq)
    } else if key == "appleMusicId"@ {
        Some(Platform::Am)
    } else {
        None
    }
}

/// The platform a metadata key holds the ids of (see `platform_of`).
pub fn platform_for_key(key: &str) -> (r: Option<Platform>)
    ensures
        r == platform_of(key@),
{
    if crate::text::str_eq(key, "ncmMusicId") {
        Some(Platform::Ncm)
    } else if crate::text::str_eq(key, "spotifyId") {
        Some(Platform::Spotify)
    } else if crate::text::str_eq(key, "qqMusicId") {
        Some(Platform::Qq)
    } else if crate::text::str_eq(key, "appleMusicId") {
        Some(Platform::Am)
    } else {
        None
    }
}

/// A lyric to write into a platform folder: the platform, the song's id
/// there, and the position of the lyric file.
#[derive(Debug)]
pub struct FolderTask {
    pub platform: Platform,
    pub id: String,
    pub entry: usize,
}

/// The values of folder tasks.
pub open spec fn tasks_view(ts: Seq<FolderTask>) -> Seq<(Platform, Seq<char>, usize)> {
    ts.map_values(|t: FolderTask| (t.platform, t.id@, t.entry))
}

/// The position of the task for song `id` on platform `p`.
pub open spec fn task_index(s: Seq<(Platform, Seq<char>, usize)>, p: Platform, id: Seq<char>) -> Option<int>
    decreases s.len(),
{
    if s.len() == 0 {
        None
    } else if s.last().0 == p && s.last().1 == id {
        Some(s.len() - 1)
    } else {
        task_index(s.drop_last(), p, id)
    }
}

/// What `task_index` returns.
proof fn lemma_task_index(s: Seq<(Platform, Seq<char>, usize)>, p: Platform, id: Seq<char>)
    ensures
        match task_index(s, p, id) {
            Some(k) => 0 <= k < s.len() && s[k].0 == p && s[k].1 == id,
            None => forall|j: int| 0 <= j < s.len() ==> !(#[trigger] s[j].0 == p && s[j].1 == id),
        },
    decreases s.len(),
{
    if s.len() > 0 {
        lemma_task_index(s.drop_last(), p, id);
        if !(s.last().0 == p && s.last().1 == id) {
            assert forall|j: int| 0 <= j < s.len() - 1 implies s[j] == s.drop_last()[j] by {}
        }
    }
}

/// The tasks with song `id` on platform `p` now taken from file `e`: a
/// later file replaces an earlier one; a new song is added at the end.
pub open spec fn upsert_task(s: Seq<(Platform, Seq<char>, usize)>, p: Platform, id: Seq<char>, e: usize) -> Seq<(Platform, Seq<char>, usize)> {
    match task_index(s, p, id) {
        Some(k) => s.update(k, (p, id, e)),
        None => s.push((p, id, e)),
    }
}

/// The tasks after the first `n` ids of platform `p` in file `e`.
pub open spec fn tasks_for_ids(s: Seq<(Platform, Seq<char>, usize)>, p: Platform, ids: Seq<Seq<char>>, e: usize, n: int) -> Seq<(Platform, Seq<char>, usize)>
    decreases n,
{
    if n <= 0 {
        s
    } else {
        upsert_task(tasks_for_ids(s, p, ids, e, n - 1), p, ids[n - 1], e)
    }
}

/// The tasks after the first `n` metadata entries of file `e`.
pub open spec fn tasks_for_entries(s: Seq<(Platform, Seq<char>, usize)>, md: Seq<(String, Vec<String>)>, e: usize, n: int) -> Seq<(Platform, Seq<char>, usize)>
    decreases n,
{
    if n <= 0 {
        s
    } else {
        let prev = tasks_for_entries(s, md, e, n - 1);
        match platform_of(md[n - 1].0@) {
            Some(p) => tasks_for_ids(prev, p, texts(md[n - 1].1@), e, md[n - 1].1@.len() as int),
            None => prev,
        }
    }
}

/// The tasks of the first `n` files.
pub open spec fn tasks_for_files(files: Seq<Vec<(String, Vec<String>)>>, n: int) -> Seq<(Platform, Seq<char>, usize)>
    decreases n,
{
    if n <= 0 {
        Seq::empty()
    } else {
        tasks_for_entries(tasks_for_files(files, n - 1), files[n - 1]@, (n - 1) as usize, files[n - 1]@.len() as int)
    }
}

/// Takes song `id` on platform `p` from file `e` (see `upsert_task`).
fn add_task(tasks: &mut Vec<FolderTask>, p: Platform, id: &String, e: usize)
    ensures
        tasks_view(final(tasks)@) == upsert_task(tasks_view(old(tasks)@), p, id@, e),
{
    let ghost before = tasks_view(tasks@);
    let mut i: usize = tasks.len();
    assert(before.take(before.len() as int) =~= before);
    while i > 0
        invariant
            i <= tasks@.len(),
            before == tasks_view(tasks@),
            tasks@ == old(tasks)@,
            task_index(before, p, id@) == task_index(before.take(i as int), p, id@),
        decreases i,
    {
        assert(before.take(i as int).drop_last() =~= before.take(i - 1));
        assert(before.take(i as int).last() == (tasks@[i - 1].platform, tasks@[i - 1].id@, tasks@[i - 1].entry));
        if tasks[i - 1].platform == p && crate::text::str_eq(tasks[i - 1].id.as_str(), id.as_str()) {
            tasks.set(i - 1, FolderTask { platform: p, id: id.clone(), entry: e });
            assert(tasks_view(tasks@) =~= upsert_task(before, p, id@, e));
            return;
        }
        i = i - 1;
    }
    tasks.push(FolderTask { platform: p, id: id.clone(), entry: e });
    assert(tasks_view(tasks@) =~= upsert_task(before, p, id@, e));
}

/// The lyrics to write into the platform folders, when they are rebuilt:
/// for every id under a platform's key in a file's metadata, that file;
/// when several files name the same song, the last one (see
/// `tasks_for_files`).
pub fn platform_tasks(files: &Vec<Vec<(String, Vec<String>)>>, gen_folder: bool) -> (r: Vec<FolderTask>)
    ensures
        tasks_view(r@) == if gen_folder {
            tasks_for_files(files@, files@.len() as int)
        } else {
            Seq::empty()
        },
        tasks_distinct(tasks_view(r@)),
{
    proof {
        lemma_tasks_distinct(files@, files@.len() as int);
    }
    let mut tasks: Vec<FolderTask> = Vec::new();
    assert(tasks_view(tasks@) =~= Seq::<(Platform, Seq<char>, usize)>::empty());
    if !gen_folder {
        return tasks;
    }
    let mut f: usize = 0;
    while f < files.len()
        invariant
            f <= files@.len(),
            tasks_view(tasks@) == tasks_for_files(files@, f as int),
        decreases files@.len() - f,
    {
        let md = &files[f];
        let ghost st0 = tasks_view(tasks@);
        let mut k: usize = 0;
        while k < md.len()
            invariant
                k <= md@.len(),
                *md == files@[f as int],
                tasks_view(tasks@) == tasks_for_entries(st0, md@, f, k as int),
            decreases md@.len() - k,
        {
            match platform_for_key(md[k].0.as_str()) {
                Some(p) => {
                    let vals = &md[k].1;
                    let ghost st1 = tasks_view(tasks@);
                    let mut j: usize = 0;
                    while j < vals.len()
                        invariant
                            j <= vals@.len(),
                            tasks_view(tasks@) == tasks_for_ids(st1, p, texts(vals@), f, j as int),
                        decreases vals@.len() - j,
                    {
                        add_task(&mut tasks, p, &vals[j], f);
                        j = j + 1;
                    }
                },
                None => {},
            }
            k = k + 1;
        }
        f = f + 1;
    }
    tasks
}

/// Each song of each platform has at most one task.
pub open spec fn tasks_distinct(s: Seq<(Platform, Seq<char>, usize)>) -> bool {
    forall|i: int, j: int| 0 <= i < j < s.len() ==> !(#[trigger] s[i].0 == #[trigger] s[j].0 && s[i].1 == s[j].1)
}

/// Taking a song keeps the songs distinct.
proof fn lemma_upsert_distinct(s: Seq<(Platform, Seq<char>, usize)>, p: Platform, id: Seq<char>, e: usize)
    requires
        tasks_distinct(s),
    ensures
        tasks_distinct(upsert_task(s, p, id, e)),
{
    lemma_task_index(s, p, id);
}

/// Folder tasks never write one song of a platform twice: after any files,
/// each (platform, id) pair has at most one task.
pub proof fn lemma_tasks_distinct(files: Seq<Vec<(String, Vec<String>)>>, n: int)
    ensures
        tasks_distinct(tasks_for_files(files, n)),
    decreases n,
{
    if n > 0 {
        lemma_tasks_distinct(files, n - 1);
        lemma_entries_distinct(tasks_for_files(files, n - 1), files[n - 1]@, (n - 1) as usize, files[n - 1]@.len() as int);
    }
}

/// The tasks of a file's entries keep the songs distinct.
proof fn lemma_entries_distinct(s: Seq<(Platform, Seq<char>, usize)>, md: Seq<(String, Vec<String>)>, e: usize, n: int)
    requires
        tasks_distinct(s),
    ensures
        tasks_distinct(tasks_for_entries(s, md, e, n)),
    decreases n,
{
    if n > 0 {
        lemma_entries_distinct(s, md, e, n - 1);
        match platform_of(md[n - 1].0@) {
            Some(p) => lemma_ids_distinct(tasks_for_entries(s, md, e, n - 1), p, texts(md[n - 1].1@), e, md[n - 1].1@.len() as int),
            None => {},
        }
    }
}

/// The tasks of a list of ids keep the songs distinct.
proof fn lemma_ids_distinct(s: Seq<(Platform, Seq<char>, usize)>, p: Platform, ids: Seq<Seq<char>>, e: usize, n: int)
    requires
        tasks_distinct(s),
    ensures
        tasks_distinct(tasks_for_ids(s, p, ids, e, n)),
    decreases n,
{
    if n > 0 {
        lemma_ids_distinct(s, p, ids, e, n - 1);
        lemma_upsert_distinct(tasks_for_ids(s, p, ids, e, n - 1), p, ids[n - 1], e);
    }
}

// ---------------------------------------------------------------------------
// Orders kept
// ---------------------------------------------------------------------------

/// Whether the files come in order of number.
pub open spec fn ids_ordered(s: Seq<(u64, usize)>) -> bool {
    forall|i: int, j: int| 0 <= i <= j < s.len() ==> #[trigger] s[i].0 <= #[trigger] s[j].0
}

/// Inserting a file keeps the order and adds exactly that file.
#[verifier::spinoff_prover]
pub proof fn lemma_insert_by_id(s: Seq<(u64, usize)>, x: (u64, usize))
    requires
        ids_ordered(s),
    ensures
        ids_ordered(insert_by_id(s, x)),
        insert_by_id(s, x).to_multiset() == s.to_multiset().insert(x),
    decreases s.len(),
{
    broadcast use vstd::seq_lib::group_to_multiset_ensures;
    if s.len() == 0 {
        assert(seq![x] =~= Seq::<(u64, usize)>::empty().push(x));
    } else if x.0 < s[0].0 {
        let r = seq![x] + s;
        assert forall|i: int, j: int| 0 <= i <= j < r.len() implies #[trigger] r[i].0 <= #[trigger] r[j].0 by {
            if i > 0 {
                assert(r[i] == s[i - 1]);
                assert(r[j] == s[j - 1]);
            } else if j > 0 {
                assert(r[j] == s[j - 1]);
                assert(s[0].0 <= s[j - 1].0);
            }
        }
        vstd::seq_lib::lemma_multiset_commutative(seq![x], s);
        assert(seq![x].to_multiset() =~= Seq::<(u64, usize)>::empty().push(x).to_multiset()) by {
            assert(seq![x] =~= Seq::<(u64, usize)>::empty().push(x));
        }
    } else {
        let t = s.drop_first();
        assert forall|i: int, j: int| 0 <= i <= j < t.len() implies #[trigger] t[i].0 <= #[trigger] t[j].0 by {
            assert(t[i] == s[i + 1]);
            assert(t[j] == s[j + 1]);
        }
        lemma_insert_by_id(t, x);
        let u = insert_by_id(t, x);
        let r = seq![s[0]] + u;
        assert forall|k: int| 0 <= k < u.len() implies s[0].0 <= #[trigger] u[k].0 by {
            assert(u.to_multiset().count(u[k]) > 0);
            assert(t.to_multiset().insert(x).count(u[k]) > 0);
            if u[k] != x {
                assert(t.to_multiset().count(u[k]) > 0);
                assert(t.contains(u[k]));
                let m = choose|m: int| 0 <= m < t.len() && t[m] == u[k];
                assert(t[m] == s[m + 1]);
            }
        }
        assert forall|i: int, j: int| 0 <= i <= j < r.len() implies #[trigger] r[i].0 <= #[trigger] r[j].0 by {
            if i > 0 {
                assert(r[i] == u[i - 1]);
                assert(r[j] == u[j - 1]);
            } else if j > 0 {
                assert(r[j] == u[j - 1]);
            }
        }
        vstd::seq_lib::lemma_multiset_commutative(seq![s[0]], u);
        vstd::seq_lib::lemma_multiset_commutative(seq![s[0]], t);
        assert(seq![s[0]] + t =~= s);
    }
}

/// Stored files are read in order of their numbers, each numbered file once.
pub proof fn lemma_sort_by_id(s: Seq<(u64, usize)>)
    ensures
        ids_ordered(sort_by_id(s)),
        sort_by_id(s).to_multiset() == s.to_multiset(),
    decreases s.len(),
{
    broadcast use vstd::seq_lib::group_to_multiset_ensures;
    if s.len() > 0 {
        lemma_sort_by_id(s.drop_last());
        lemma_insert_by_id(sort_by_id(s.drop_last()), s.last());
        assert(s.drop_last().push(s.last()) =~= s);
    }
}

/// No id is listed twice.
pub open spec fn ids_distinct(st: Seq<ContributorView>) -> bool {
    forall|i: int, j: int| 0 <= i < j < st.len() ==> #[trigger] st[i].id != #[trigger] st[j].id
}

/// A credit keeps the ids distinct.
proof fn lemma_credit_distinct(st: Seq<ContributorView>, id: Seq<char>, login: Option<Seq<char>>)
    requires
        ids_distinct(st),
    ensures
        ids_distinct(credit(st, id, login)),
{
    lemma_contributor_index(st, id);
}

/// The credits of a file's ids keep the ids distinct.
proof fn lemma_credit_ids_distinct(st: Seq<ContributorView>, ids: Seq<Seq<char>>, logins: Option<Seq<Seq<char>>>, n: int)
    requires
        ids_distinct(st),
    ensures
        ids_distinct(credit_ids(st, ids, logins, n)),
    decreases n,
{
    if n > 0 {
        lemma_credit_ids_distinct(st, ids, logins, n - 1);
        let login = match logins {
            Some(l) => if n - 1 < l.len() {
                Some(l[n - 1])
            } else {
                None
            },
            None => None,
        };
        lemma_credit_distinct(credit_ids(st, ids, logins, n - 1), ids[n - 1], login);
    }
}

/// Every contributor is listed once, however many files credit it.
pub proof fn lemma_contributors_distinct(files: Seq<Vec<(String, Vec<String>)>>, n: int)
    ensures
        ids_distinct(credit_files(files, n)),
    decreases n,
{
    if n > 0 {
        lemma_contributors_distinct(files, n - 1);
        let st = credit_files(files, n - 1);
        match entry_values(files[n - 1]@, "ttmlAuthorGithub"@) {
            Some(ids) => lemma_credit_ids_distinct(
                st,
                ids,
                entry_values(files[n - 1]@, "ttmlAuthorGithubLogin"@),
                ids.len() as int,
            ),
            None => {},
        }
    }
}

/// Whether the contributors come in rank order.
pub open spec fn in_rank_order(s: Seq<ContributorView>) -> bool {
    forall|i: int, j: int| 0 <= i <= j < s.len() ==> !ranks_before(#[trigger] s[j], #[trigger] s[i])
}

/// Ranking is a strict order: irreflexive and transitive.
proof fn lemma_ranks_before(a: ContributorView, b: ContributorView, c: ContributorView)
    ensures
        !ranks_before(a, a),
        ranks_before(a, b) && ranks_before(b, c) ==> ranks_before(a, c),
{
    crate::metadata::lemma_text_lt_irrefl(a.id);
    if ranks_before(a, b) && ranks_before(b, c) && a.count == b.count && b.count == c.count {
        lemma_text_lt_trans(a.id, b.id, c.id);
    }
}

/// Inserting a contributor keeps the rank order and adds exactly it.
#[verifier::spinoff_prover]
pub proof fn lemma_insert_ranked(s: Seq<ContributorView>, x: ContributorView)
    requires
        in_rank_order(s),
    ensures
        in_rank_order(insert_ranked(s, x)),
        insert_ranked(s, x).to_multiset() == s.to_multiset().insert(x),
    decreases s.len(),
{
    broadcast use vstd::seq_lib::group_to_multiset_ensures;
    lemma_ranks_before(x, x, x);
    if s.len() == 0 {
        assert(seq![x] =~= Seq::<ContributorView>::empty().push(x));
    } else if ranks_before(x, s[0]) {
        let r = seq![x] + s;
        assert forall|i: int, j: int| 0 <= i <= j < r.len() implies !ranks_before(#[trigger] r[j], #[trigger] r[i]) by {
            if i > 0 {
                assert(r[i] == s[i - 1]);
                assert(r[j] == s[j - 1]);
            } else if j > 0 {
                assert(r[j] == s[j - 1]);
                assert(!ranks_before(s[j - 1], s[0]));
                lemma_ranks_before(s[j - 1], x, s[0]);
            }
        }
        vstd::seq_lib::lemma_multiset_commutative(seq![x], s);
        assert(seq![x].to_multiset() =~= Seq::<ContributorView>::empty().push(x).to_multiset()) by {
            assert(seq![x] =~= Seq::<ContributorView>::empty().push(x));
        }
    } else {
        let t = s.drop_first();
        assert forall|i: int, j: int| 0 <= i <= j < t.len() implies !ranks_before(#[trigger] t[j], #[trigger] t[i]) by {
            assert(t[i] == s[i + 1]);
            assert(t[j] == s[j + 1]);
        }
        lemma_insert_ranked(t, x);
        let u = insert_ranked(t, x);
        let r = seq![s[0]] + u;
        assert forall|k: int| 0 <= k < u.len() implies !ranks_before(#[trigger] u[k], s[0]) by {
            assert(u.to_multiset().count(u[k]) > 0);
            assert(t.to_multiset().insert(x).count(u[k]) > 0);
            if u[k] != x {
                assert(t.to_multiset().count(u[k]) > 0);
                assert(t.contains(u[k]));
                let m = choose|m: int| 0 <= m < t.len() && t[m] == u[k];
                assert(t[m] == s[m + 1]);
            }
        }
        assert forall|i: int, j: int| 0 <= i <= j < r.len() implies !ranks_before(#[trigger] r[j], #[trigger] r[i]) by {
            if i > 0 {
                assert(r[i] == u[i - 1]);
                assert(r[j] == u[j - 1]);
            } else if j > 0 {
                assert(r[j] == u[j - 1]);
            } else {
                lemma_ranks_before(s[0], s[0], s[0]);
            }
        }
        vstd::seq_lib::lemma_multiset_commutative(seq![s[0]], u);
        vstd::seq_lib::lemma_multiset_commutative(seq![s[0]], t);
        assert(seq![s[0]] + t =~= s);
    }
}

/// The contributors page lists the most credited first, ties by id, and
/// every contributor once as given.
pub proof fn lemma_rank_contributors(s: Seq<ContributorView>)
    ensures
        in_rank_order(rank_contributors(s)),
        rank_contributors(s).to_multiset() == s.to_multiset(),
    decreases s.len(),
{
    broadcast use vstd::seq_lib::group_to_multiset_ensures;
    if s.len() > 0 {
        lemma_rank_contributors(s.drop_last());
        lemma_insert_ranked(rank_contributors(s.drop_last()), s.last());
        assert(s.drop_last().push(s.last()) =~= s);
    }
}

} // verus!
