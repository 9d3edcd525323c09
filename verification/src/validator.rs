//! Checks of parsed lyrics and their metadata before publication.

use vstd::prelude::*;

use crate::metadata::{CanonicalMetadataKey, KeyView, MetadataStore};
use crate::text::{texts, decimal, is_blank, push_decimal, push_str, to_owned_string, trim};
use crate::types::{AnnotatedTrack, LyricLine, LyricSyllable, Word};

verus! {

// ---------------------------------------------------------------------------
// Metadata
// ---------------------------------------------------------------------------

/// The problems of the metadata `m`, in the order they are reported.
pub open spec fn metadata_errors(m: Map<KeyView, Seq<Seq<char>>>) -> Seq<Seq<char>> {
    (if !m.contains_key(KeyView::Title) {
        seq!["歌词文件中未包含歌曲名称信息 (缺失 musicName 元数据)。"@]
    } else {
        Seq::empty()
    }) + (if !m.contains_key(KeyView::Artist) {
        seq!["歌词文件中未包含音乐作者信息 (缺失 artists 元数据)。"@]
    } else {
        Seq::empty()
    }) + (if !m.contains_key(KeyView::Album) {
        seq!["歌词文件中未包含专辑信息 (缺失 album 元数据)。(注：如果是单曲专辑请和歌曲名称同名)"@]
    } else {
        Seq::empty()
    }) + (if !(m.contains_key(KeyView::AppleMusicId) || m.contains_key(KeyView::NcmMusicId)
        || m.contains_key(KeyView::SpotifyId) || m.contains_key(KeyView::QqMusicId)) {
        seq!["歌词文件中未包含任何音乐平台 ID。"@]
    } else {
        Seq::empty()
    })
}

/// Appends `msg` to `errors`.
pub(crate) fn report(errors: &mut Vec<String>, msg: String)
    ensures
        texts(final(errors)@) == texts(old(errors)@) + seq![msg@],
{
    let ghost before = texts(errors@);
    errors.push(msg);
    assert(texts(errors@) =~= before + seq![msg@]);
}

/// Appends the problems of the metadata (see `metadata_errors`) to `errors`.
pub fn validate_metadata(metadata_store: &MetadataStore, errors: &mut Vec<String>)
    requires
        metadata_store.wf(),
    ensures
        texts(final(errors)@) == texts(old(errors)@) + metadata_errors(metadata_store@),
{
    let ghost m = metadata_store@;
    let ghost start = texts(errors@);
    if metadata_store.get_multiple_values(&CanonicalMetadataKey::Title).is_none() {
        report(errors, to_owned_string("歌词文件中未包含歌曲名称信息 (缺失 musicName 元数据)。"));
    }
    let ghost e1 = texts(errors@);
    if metadata_store.get_multiple_values(&CanonicalMetadataKey::Artist).is_none() {
        report(errors, to_owned_string("歌词文件中未包含音乐作者信息 (缺失 artists 元数据)。"));
    }
    let ghost e2 = texts(errors@);
    if metadata_store.get_multiple_values(&CanonicalMetadataKey::Album).is_none() {
        report(
            errors,
            to_owned_string(
                "歌词文件中未包含专辑信息 (缺失 album 元数据)。(注：如果是单曲专辑请和歌曲名称同名)",
            ),
        );
    }
    let ghost e3 = texts(errors@);
    let platform_ids_present = metadata_store.get_multiple_values(&CanonicalMetadataKey::AppleMusicId).is_some()
        || metadata_store.get_multiple_values(&CanonicalMetadataKey::NcmMusicId).is_some()
        || metadata_store.get_multiple_values(&CanonicalMetadataKey::SpotifyId).is_some()
        || metadata_store.get_multiple_values(&CanonicalMetadataKey::QqMusicId).is_some();
    if !platform_ids_present {
        report(errors, to_owned_string("歌词文件中未包含任何音乐平台 ID。"));
    }
    assert(texts(errors@) =~= start + metadata_errors(m));
}

// ---------------------------------------------------------------------------
// Lyric lines
// ---------------------------------------------------------------------------

/// A syllable that holds more than whitespace.
pub open spec fn syllable_has_text(s: LyricSyllable) -> bool {
    trim(s.text@).len() > 0
}

/// Whether one of the syllables holds text.
pub open spec fn syllables_have_text(syls: Seq<LyricSyllable>) -> bool {
    exists|s: int| 0 <= s < syls.len() && #[trigger] syllable_has_text(syls[s])
}

/// Whether a syllable of one of the words holds text.
pub open spec fn words_have_text(words: Seq<Word>) -> bool {
    exists|w: int| 0 <= w < words.len() && #[trigger] syllables_have_text(words[w].syllables@)
}

/// Whether some syllable of some track of the line holds text.
pub open spec fn line_has_content(line: LyricLine) -> bool {
    exists|t: int| 0 <= t < line.tracks@.len() && #[trigger] words_have_text(line.tracks@[t].content.words@)
}

/// A syllable with a non-zero timestamp.
pub open spec fn syllable_timed(s: LyricSyllable) -> bool {
    s.start_ms != 0 || s.end_ms != 0
}

/// Whether one of the syllables has a non-zero timestamp.
pub open spec fn syllables_timed(syls: Seq<LyricSyllable>) -> bool {
    exists|s: int| 0 <= s < syls.len() && #[trigger] syllable_timed(syls[s])
}

/// Whether a syllable of one of the words has a non-zero timestamp.
pub open spec fn words_timed(words: Seq<Word>) -> bool {
    exists|w: int| 0 <= w < words.len() && #[trigger] syllables_timed(words[w].syllables@)
}

/// Whether the line, or one of its syllables, has a non-zero timestamp.
pub open spec fn line_timed(line: LyricLine) -> bool {
    line.start_ms != 0 || line.end_ms != 0 || exists|t: int|
        0 <= t < line.tracks@.len() && #[trigger] words_timed(line.tracks@[t].content.words@)
}

/// Whether any line has a non-zero timestamp.
pub open spec fn any_timed(lines: Seq<LyricLine>) -> bool {
    exists|i: int| 0 <= i < lines.len() && #[trigger] line_timed(lines[i])
}

/// `"第 {l+1} 行歌词内容为空。"`.
pub open spec fn empty_line_msg(l: nat) -> Seq<char> {
    "第 "@ + decimal(l + 1) + " 行歌词内容为空。"@
}

/// `"第 {l+1} 行歌词结束时间 ({end}) 小于开始时间 ({start})."`.
pub open spec fn line_time_msg(l: nat, end: nat, start: nat) -> Seq<char> {
    "第 "@ + decimal(l + 1) + " 行歌词结束时间 ("@ + decimal(end) + ") 小于开始时间 ("@ + decimal(start)
        + ")."@
}

/// The message for a syllable that ends before it starts.
pub open spec fn syllable_time_msg(l: nat, t: nat, w: nat, k: nat, s: LyricSyllable) -> Seq<char> {
    "第 "@ + decimal(l + 1) + " 行第 "@ + decimal(t + 1) + " 个轨道第 "@ + decimal(w + 1) + " 个词第 "@
        + decimal(k + 1) + " 个音节 '"@ + s.text@ + "' 结束时间 ("@ + decimal(s.end_ms as nat)
        + ") 小于开始时间 ("@ + decimal(s.start_ms as nat) + ")."@
}

/// The problems of the syllables `syls` of word `w` of track `t` of line `l`.
pub open spec fn word_errors(l: nat, t: nat, w: nat, syls: Seq<LyricSyllable>) -> Seq<Seq<char>>
    decreases syls.len(),
{
    if syls.len() == 0 {
        Seq::empty()
    } else {
        let s = syls.last();
        word_errors(l, t, w, syls.drop_last()) + if syllable_has_text(s) && s.end_ms < s.start_ms {
            seq![syllable_time_msg(l, t, w, (syls.len() - 1) as nat, s)]
        } else {
            Seq::empty()
        }
    }
}

/// The problems of the words of track `t` of line `l`.
pub open spec fn track_errors(l: nat, t: nat, words: Seq<Word>) -> Seq<Seq<char>>
    decreases words.len(),
{
    if words.len() == 0 {
        Seq::empty()
    } else {
        track_errors(l, t, words.drop_last()) + word_errors(
            l,
            t,
            (words.len() - 1) as nat,
            words.last().syllables@,
        )
    }
}

/// The problems of the tracks of line `l`.
pub open spec fn tracks_errors(l: nat, tracks: Seq<AnnotatedTrack>) -> Seq<Seq<char>>
    decreases tracks.len(),
{
    if tracks.len() == 0 {
        Seq::empty()
    } else {
        tracks_errors(l, tracks.drop_last()) + track_errors(
            l,
            (tracks.len() - 1) as nat,
            tracks.last().content.words@,
        )
    }
}

/// The problems of line `l`: an empty line, or its timestamps.
pub open spec fn line_errors(l: nat, line: LyricLine) -> Seq<Seq<char>> {
    if !line_has_content(line) {
        seq![empty_line_msg(l)]
    } else {
        (if line.end_ms < line.start_ms {
            seq![line_time_msg(l, line.end_ms as nat, line.start_ms as nat)]
        } else {
            Seq::empty()
        }) + tracks_errors(l, line.tracks@)
    }
}

/// The problems of each line, in order.
pub open spec fn lines_errors(lines: Seq<LyricLine>) -> Seq<Seq<char>>
    decreases lines.len(),
{
    if lines.len() == 0 {
        Seq::empty()
    } else {
        lines_errors(lines.drop_last()) + line_errors((lines.len() - 1) as nat, lines.last())
    }
}

/// The problems of the lyric lines, in the order they are reported.
pub open spec fn lyric_line_errors(lines: Seq<LyricLine>) -> Seq<Seq<char>> {
    if lines.len() == 0 {
        seq!["歌词内容为空。"@]
    } else {
        (if !any_timed(lines) {
            seq!["所有歌词的时间戳均为 0。"@]
        } else {
            Seq::empty()
        }) + lines_errors(lines)
    }
}

/// Whether one of the syllables holds text.
fn syllables_have_text_exec(syls: &Vec<LyricSyllable>) -> (r: bool)
    ensures
        r == syllables_have_text(syls@),
{
    let mut s: usize = 0;
    while s < syls.len()
        invariant
            s <= syls@.len(),
            forall|k: int| 0 <= k < s ==> !#[trigger] syllable_has_text(syls@[k]),
        decreases syls@.len() - s,
    {
        if !is_blank(syls[s].text.as_str()) {
            assert(syllable_has_text(syls@[s as int]));
            return true;
        }
        s = s + 1;
    }
    false
}

/// Whether a syllable of one of the words holds text.
fn words_have_text_exec(words: &Vec<Word>) -> (r: bool)
    ensures
        r == words_have_text(words@),
{
    let mut w: usize = 0;
    while w < words.len()
        invariant
            w <= words@.len(),
            forall|k: int| 0 <= k < w ==> !#[trigger] syllables_have_text(words@[k].syllables@),
        decreases words@.len() - w,
    {
        if syllables_have_text_exec(&words[w].syllables) {
            return true;
        }
        w = w + 1;
    }
    false
}

/// Whether some syllable of the line holds text (see `line_has_content`).
fn line_has_content_exec(line: &LyricLine) -> (r: bool)
    ensures
        r == line_has_content(*line),
{
    let mut t: usize = 0;
    while t < line.tracks.len()
        invariant
            t <= line.tracks@.len(),
            forall|k: int| 0 <= k < t ==> !#[trigger] words_have_text(line.tracks@[k].content.words@),
        decreases line.tracks@.len() - t,
    {
        if words_have_text_exec(&line.tracks[t].content.words) {
            return true;
        }
        t = t + 1;
    }
    false
}

/// Whether one of the syllables has a non-zero timestamp.
fn syllables_timed_exec(syls: &Vec<LyricSyllable>) -> (r: bool)
    ensures
        r == syllables_timed(syls@),
{
    let mut s: usize = 0;
    while s < syls.len()
        invariant
            s <= syls@.len(),
            forall|k: int| 0 <= k < s ==> !#[trigger] syllable_timed(syls@[k]),
        decreases syls@.len() - s,
    {
        if syls[s].start_ms != 0 || syls[s].end_ms != 0 {
            assert(syllable_timed(syls@[s as int]));
            return true;
        }
        s = s + 1;
    }
    false
}

/// Whether a syllable of one of the words has a non-zero timestamp.
fn words_timed_exec(words: &Vec<Word>) -> (r: bool)
    ensures
        r == words_timed(words@),
{
    let mut w: usize = 0;
    while w < words.len()
        invariant
            w <= words@.len(),
            forall|k: int| 0 <= k < w ==> !#[trigger] syllables_timed(words@[k].syllables@),
        decreases words@.len() - w,
    {
        if syllables_timed_exec(&words[w].syllables) {
            return true;
        }
        w = w + 1;
    }
    false
}

/// Whether the line or one of its syllables has a non-zero timestamp.
fn line_timed_exec(line: &LyricLine) -> (r: bool)
    ensures
        r == line_timed(*line),
{
    if line.start_ms != 0 || line.end_ms != 0 {
        return true;
    }
    let mut t: usize = 0;
    while t < line.tracks.len()
        invariant
            t <= line.tracks@.len(),
            forall|k: int| 0 <= k < t ==> !#[trigger] words_timed(line.tracks@[k].content.words@),
        decreases line.tracks@.len() - t,
    {
        if words_timed_exec(&line.tracks[t].content.words) {
            return true;
        }
        t = t + 1;
    }
    false
}

/// `"第 {l+1} 行歌词内容为空。"`
fn empty_line_message(l: usize) -> (r: String)
    requires
        l < usize::MAX,
    ensures
        r@ == empty_line_msg(l as nat),
{
    let mut r = to_owned_string("第 ");
    push_decimal(&mut r, (l + 1) as u64);
    push_str(&mut r, " 行歌词内容为空。");
    r
}

/// `"第 {l+1} 行歌词结束时间 ({end}) 小于开始时间 ({start})."`
fn line_time_message(l: usize, end: u64, start: u64) -> (r: String)
    requires
        l < usize::MAX,
    ensures
        r@ == line_time_msg(l as nat, end as nat, start as nat),
{
    let mut r = to_owned_string("第 ");
    push_decimal(&mut r, (l + 1) as u64);
    push_str(&mut r, " 行歌词结束时间 (");
    push_decimal(&mut r, end);
    push_str(&mut r, ") 小于开始时间 (");
    push_decimal(&mut r, start);
    push_str(&mut r, ").");
    r
}

/// The message for a syllable that ends before it starts.
fn syllable_time_message(l: usize, t: usize, w: usize, k: usize, s: &LyricSyllable) -> (r: String)
    requires
        l < usize::MAX,
        t < usize::MAX,
        w < usize::MAX,
        k < usize::MAX,
    ensures
        r@ == syllable_time_msg(l as nat, t as nat, w as nat, k as nat, *s),
{
    let mut r = to_owned_string("第 ");
    push_decimal(&mut r, (l + 1) as u64);
    push_str(&mut r, " 行第 ");
    push_decimal(&mut r, (t + 1) as u64);
    push_str(&mut r, " 个轨道第 ");
    push_decimal(&mut r, (w + 1) as u64);
    push_str(&mut r, " 个词第 ");
    push_decimal(&mut r, (k + 1) as u64);
    push_str(&mut r, " 个音节 '");
    push_str(&mut r, s.text.as_str());
    push_str(&mut r, "' 结束时间 (");
    push_decimal(&mut r, s.end_ms);
    push_str(&mut r, ") 小于开始时间 (");
    push_decimal(&mut r, s.start_ms);
    push_str(&mut r, ").");
    r
}

/// Appends the problems of one word's syllables (see `word_errors`).
fn push_word_errors(errors: &mut Vec<String>, l: usize, t: usize, w: usize, syls: &Vec<LyricSyllable>)
    requires
        l < usize::MAX,
        t < usize::MAX,
        w < usize::MAX,
    ensures
        texts(final(errors)@) == texts(old(errors)@) + word_errors(l as nat, t as nat, w as nat, syls@),
{
    let ghost start = texts(errors@);
    let mut k: usize = 0;
    while k < syls.len()
        invariant
            k <= syls@.len(),
            l < usize::MAX,
            t < usize::MAX,
            w < usize::MAX,
            texts(errors@) == start + word_errors(l as nat, t as nat, w as nat, syls@.take(k as int)),
        decreases syls@.len() - k,
    {
        let ghost before = texts(errors@);
        let ghost prev = word_errors(l as nat, t as nat, w as nat, syls@.take(k as int));
        let s = &syls[k];
        proof {
            assert(syls@.take(k + 1).drop_last() =~= syls@.take(k as int));
            assert(syls@.take(k + 1).last() == syls@[k as int]);
        }
        if !is_blank(s.text.as_str()) && s.end_ms < s.start_ms {
            let msg = syllable_time_message(l, t, w, k, s);
            report(errors, msg);
            proof {
                assert(word_errors(l as nat, t as nat, w as nat, syls@.take(k + 1)) == prev + seq![msg@]);
                assert(texts(errors@) =~= start + (prev + seq![msg@]));
            }
        } else {
            assert(word_errors(l as nat, t as nat, w as nat, syls@.take(k + 1)) =~= prev);
        }
        k = k + 1;
    }
    assert(syls@.take(syls@.len() as int) =~= syls@);
}

/// Appends the problems of one track's words (see `track_errors`).
fn push_track_errors(errors: &mut Vec<String>, l: usize, t: usize, words: &Vec<Word>)
    requires
        l < usize::MAX,
        t < usize::MAX,
    ensures
        texts(final(errors)@) == texts(old(errors)@) + track_errors(l as nat, t as nat, words@),
{
    let ghost start = texts(errors@);
    let mut w: usize = 0;
    while w < words.len()
        invariant
            w <= words@.len(),
            l < usize::MAX,
            t < usize::MAX,
            texts(errors@) == start + track_errors(l as nat, t as nat, words@.take(w as int)),
        decreases words@.len() - w,
    {
        let ghost before = texts(errors@);
        assert(words@.take(w + 1).drop_last() =~= words@.take(w as int));
        push_word_errors(errors, l, t, w, &words[w].syllables);
        assert(texts(errors@) =~= start + track_errors(l as nat, t as nat, words@.take(w + 1)));
        w = w + 1;
    }
    assert(words@.take(words@.len() as int) =~= words@);
}

/// Appends the problems of a line's tracks (see `tracks_errors`).
fn push_tracks_errors(errors: &mut Vec<String>, l: usize, tracks: &Vec<AnnotatedTrack>)
    requires
        l < usize::MAX,
    ensures
        texts(final(errors)@) == texts(old(errors)@) + tracks_errors(l as nat, tracks@),
{
    let ghost start = texts(errors@);
    let mut t: usize = 0;
    while t < tracks.len()
        invariant
            t <= tracks@.len(),
            l < usize::MAX,
            texts(errors@) == start + tracks_errors(l as nat, tracks@.take(t as int)),
        decreases tracks@.len() - t,
    {
        assert(tracks@.take(t + 1).drop_last() =~= tracks@.take(t as int));
        push_track_errors(errors, l, t, &tracks[t].content.words);
        assert(texts(errors@) =~= start + tracks_errors(l as nat, tracks@.take(t + 1)));
        t = t + 1;
    }
    assert(tracks@.take(tracks@.len() as int) =~= tracks@);
}

/// Appends the problems of the lyric lines (see `lyric_line_errors`).
pub fn validate_lyric_lines(lines: &[LyricLine], errors: &mut Vec<String>)
    ensures
        texts(final(errors)@) == texts(old(errors)@) + lyric_line_errors(lines@),
{
    let ghost start = texts(errors@);
    if lines.len() == 0 {
        report(errors, to_owned_string("歌词内容为空。"));
        return;
    }
    let has_any_non_zero_timestamp = has_any_non_zero_timestamp(lines);
    if !has_any_non_zero_timestamp {
        report(errors, to_owned_string("所有歌词的时间戳均为 0。"));
    }
    let ghost head = texts(errors@);
    assert(head == start + (if !any_timed(lines@) {
        seq!["所有歌词的时间戳均为 0。"@]
    } else {
        Seq::<Seq<char>>::empty()
    }));
    let mut i: usize = 0;
    while i < lines.len()
        invariant
            i <= lines@.len(),
            texts(errors@) == head + lines_errors(lines@.take(i as int)),
        decreases lines@.len() - i,
    {
        let line = &lines[i];
        assert(lines@.take(i + 1).drop_last() =~= lines@.take(i as int));
        let ghost before = texts(errors@);
        if !line_has_content_exec(line) {
            report(errors, empty_line_message(i));
        } else {
            if line.end_ms < line.start_ms {
                report(errors, line_time_message(i, line.end_ms, line.start_ms));
            }
            push_tracks_errors(errors, i, &line.tracks);
        }
        assert(texts(errors@) =~= before + line_errors(i as nat, lines@[i as int]));
        assert(texts(errors@) =~= head + lines_errors(lines@.take(i + 1)));
        i = i + 1;
    }
    assert(lines@.take(lines@.len() as int) =~= lines@);
    assert(texts(errors@) =~= start + lyric_line_errors(lines@));
}

/// Whether any line, or any syllable of it, has a non-zero timestamp.
pub fn has_any_non_zero_timestamp(lines: &[LyricLine]) -> (r: bool)
    ensures
        r == any_timed(lines@),
{
    let mut i: usize = 0;
    while i < lines.len()
        invariant
            i <= lines@.len(),
            forall|k: int| 0 <= k < i ==> !#[trigger] line_timed(lines@[k]),
        decreases lines@.len() - i,
    {
        if line_timed_exec(&lines[i]) {
            return true;
        }
        i = i + 1;
    }
    false
}

/// The metadata passes the check exactly when it has a title, an artist, an
/// album and the id of some music platform.
pub proof fn lemma_metadata_ok(m: Map<KeyView, Seq<Seq<char>>>)
    ensures
        metadata_errors(m).len() == 0 <==> m.contains_key(KeyView::Title) && m.contains_key(KeyView::Artist)
            && m.contains_key(KeyView::Album) && (m.contains_key(KeyView::AppleMusicId) || m.contains_key(
            KeyView::NcmMusicId,
        ) || m.contains_key(KeyView::SpotifyId) || m.contains_key(KeyView::QqMusicId)),
{
}

/// A syllable with text does not end before it starts.
pub open spec fn syllable_ok(s: LyricSyllable) -> bool {
    syllable_has_text(s) ==> s.start_ms <= s.end_ms
}

/// Every syllable with text of the words ends no earlier than it starts.
pub open spec fn words_ok(words: Seq<Word>) -> bool {
    forall|w: int, k: int| 0 <= w < words.len() && 0 <= k < words[w].syllables@.len() ==> #[trigger] syllable_ok(
        words[w].syllables@[k],
    )
}

/// A line that passes the check: it holds text, does not end before it
/// starts, and no syllable with text of its tracks ends before it starts.
pub open spec fn line_ok(line: LyricLine) -> bool {
    &&& line_has_content(line)
    &&& line.start_ms <= line.end_ms
    &&& forall|t: int| 0 <= t < line.tracks@.len() ==> #[trigger] words_ok(line.tracks@[t].content.words@)
}

proof fn lemma_word_errors_empty(l: nat, t: nat, w: nat, syls: Seq<LyricSyllable>)
    ensures
        word_errors(l, t, w, syls).len() == 0 <==> forall|k: int| 0 <= k < syls.len() ==> #[trigger] syllable_ok(syls[k]),
    decreases syls.len(),
{
    if syls.len() > 0 {
        lemma_word_errors_empty(l, t, w, syls.drop_last());
        if forall|k: int| 0 <= k < syls.len() ==> #[trigger] syllable_ok(syls[k]) {
            assert forall|k: int| 0 <= k < syls.drop_last().len() implies #[trigger] syllable_ok(syls.drop_last()[k]) by {
                assert(syls.drop_last()[k] == syls[k]);
            }
            assert(syllable_ok(syls[syls.len() - 1]));
        } else {
            let k = choose|k: int| 0 <= k < syls.len() && !#[trigger] syllable_ok(syls[k]);
            if k < syls.len() - 1 {
                assert(syls.drop_last()[k] == syls[k]);
            }
        }
    }
}

proof fn lemma_track_errors_empty(l: nat, t: nat, words: Seq<Word>)
    ensures
        track_errors(l, t, words).len() == 0 <==> words_ok(words),
    decreases words.len(),
{
    if words.len() > 0 {
        let n = words.len() - 1;
        lemma_track_errors_empty(l, t, words.drop_last());
        lemma_word_errors_empty(l, t, n as nat, words.last().syllables@);
        if words_ok(words) {
            assert forall|w: int, k: int| 0 <= w < words.drop_last().len() && 0 <= k < words.drop_last()[w].syllables@.len()
                implies #[trigger] syllable_ok(words.drop_last()[w].syllables@[k]) by {
                assert(words.drop_last()[w] == words[w]);
            }
            assert forall|k: int| 0 <= k < words.last().syllables@.len() implies #[trigger] syllable_ok(
                words.last().syllables@[k],
            ) by {
                assert(syllable_ok(words[n].syllables@[k]));
            }
        } else {
            let (w, k) = choose|w: int, k: int| 0 <= w < words.len() && 0 <= k < words[w].syllables@.len()
                && !#[trigger] syllable_ok(words[w].syllables@[k]);
            if w < n {
                assert(words.drop_last()[w] == words[w]);
                assert(!syllable_ok(words.drop_last()[w].syllables@[k]));
            } else {
                assert(!syllable_ok(words.last().syllables@[k]));
            }
        }
    }
}

proof fn lemma_tracks_errors_empty(l: nat, tracks: Seq<AnnotatedTrack>)
    ensures
        tracks_errors(l, tracks).len() == 0 <==> forall|t: int| 0 <= t < tracks.len() ==> #[trigger] words_ok(
            tracks[t].content.words@,
        ),
    decreases tracks.len(),
{
    if tracks.len() > 0 {
        let n = tracks.len() - 1;
        lemma_tracks_errors_empty(l, tracks.drop_last());
        lemma_track_errors_empty(l, n as nat, tracks.last().content.words@);
        if forall|t: int| 0 <= t < tracks.len() ==> #[trigger] words_ok(tracks[t].content.words@) {
            assert forall|t: int| 0 <= t < tracks.drop_last().len() implies #[trigger] words_ok(
                tracks.drop_last()[t].content.words@,
            ) by {
                assert(tracks.drop_last()[t] == tracks[t]);
            }
            assert(words_ok(tracks[n].content.words@));
        } else {
            let t = choose|t: int| 0 <= t < tracks.len() && !#[trigger] words_ok(tracks[t].content.words@);
            if t < n {
                assert(tracks.drop_last()[t] == tracks[t]);
            }
        }
    }
}

proof fn lemma_lines_errors_empty(lines: Seq<LyricLine>)
    ensures
        lines_errors(lines).len() == 0 <==> forall|i: int| 0 <= i < lines.len() ==> #[trigger] line_ok(lines[i]),
    decreases lines.len(),
{
    if lines.len() > 0 {
        let n = lines.len() - 1;
        let line = lines.last();
        lemma_lines_errors_empty(lines.drop_last());
        lemma_tracks_errors_empty(n as nat, line.tracks@);
        assert(line_errors(n as nat, line).len() == 0 <==> line_ok(line));
        if forall|i: int| 0 <= i < lines.len() ==> #[trigger] line_ok(lines[i]) {
            assert forall|i: int| 0 <= i < lines.drop_last().len() implies #[trigger] line_ok(lines.drop_last()[i]) by {
                assert(lines.drop_last()[i] == lines[i]);
            }
            assert(line_ok(lines[n]));
        } else {
            let i = choose|i: int| 0 <= i < lines.len() && !#[trigger] line_ok(lines[i]);
            if i < n {
                assert(lines.drop_last()[i] == lines[i]);
            }
        }
    }
}

/// The lines pass the check exactly when there is one, some line or
/// syllable has a non-zero time, and every line passes (see `line_ok`).
pub proof fn lemma_lines_ok(lines: Seq<LyricLine>)
    ensures
        lyric_line_errors(lines).len() == 0 <==> lines.len() > 0 && any_timed(lines) && forall|i: int|
            0 <= i < lines.len() ==> #[trigger] line_ok(lines[i]),
{
    lemma_lines_errors_empty(lines);
}

/// Whether lyrics pass the check: the metadata has a title, an artist, an
/// album and a platform id; there is a line; some line or syllable has a
/// non-zero time; every line passes (see `line_ok`).
pub open spec fn validation_passes(lines: Seq<LyricLine>, m: Map<KeyView, Seq<Seq<char>>>) -> bool {
    &&& m.contains_key(KeyView::Title) && m.contains_key(KeyView::Artist) && m.contains_key(KeyView::Album)
    &&& m.contains_key(KeyView::AppleMusicId) || m.contains_key(KeyView::NcmMusicId) || m.contains_key(
        KeyView::SpotifyId,
    ) || m.contains_key(KeyView::QqMusicId)
    &&& lines.len() > 0 && any_timed(lines)
    &&& forall|i: int| 0 <= i < lines.len() ==> #[trigger] line_ok(lines[i])
}

/// The check reports no problem exactly when the lyrics pass it (see
/// `validation_passes`).
pub proof fn lemma_validation_ok(lines: Seq<LyricLine>, m: Map<KeyView, Seq<Seq<char>>>)
    ensures
        (metadata_errors(m) + lyric_line_errors(lines)).len() == 0 <==> validation_passes(lines, m),
{
    lemma_metadata_ok(m);
    lemma_lines_ok(lines);
}

/// Checks the lyric lines and the metadata. `Ok` when there is no problem;
/// otherwise every problem of the metadata (see `metadata_errors`), then
/// every problem of the lines (see `lyric_line_errors`), in that order. It
/// passes exactly when `validation_passes` holds.
pub fn validate_lyrics_and_metadata(lines: &[LyricLine], metadata_store: &MetadataStore) -> (r: Result<(), Vec<String>>)
    requires
        metadata_store.wf(),
    ensures
        match r {
            Ok(()) => metadata_errors(metadata_store@) + lyric_line_errors(lines@) == Seq::<Seq<char>>::empty(),
            Err(errors) => texts(errors@) == metadata_errors(metadata_store@) + lyric_line_errors(lines@)
                && errors@.len() > 0,
        },
        r is Ok <==> validation_passes(lines@, metadata_store@),
{
    proof {
        lemma_validation_ok(lines@, metadata_store@);
    }
    let mut errors: Vec<String> = Vec::new();
    assert(texts(errors@) =~= Seq::<Seq<char>>::empty());
    validate_metadata(metadata_store, &mut errors);
    validate_lyric_lines(lines, &mut errors);
    assert(texts(errors@) =~= metadata_errors(metadata_store@) + lyric_line_errors(lines@));
    if errors.len() == 0 {
        Ok(())
    } else {
        Err(errors)
    }
}

} // verus!
