//! Checks that a submitted lyric file is fit for publication: required
//! metadata, non-empty lines, and consistent timestamps.

use vstd::prelude::*;

use crate::model::{LyricLine, Syllable, TTMLMetadata, TTMLResult};
use crate::text::{decimal, is_blank, push_decimal, push_str, texts, to_owned_string, trim};
use crate::validator::report;

verus! {

/// The problems of the metadata, in the order they are reported.
pub open spec fn metadata_problems(meta: TTMLMetadata) -> Seq<Seq<char>> {
    (if meta.title is None {
        seq!["歌词文件中未包含歌曲名称信息 (缺失 musicName 元数据)"@]
    } else {
        Seq::empty()
    }) + (if meta.artist is None {
        seq!["歌词文件中未包含音乐作者信息 (缺失 artists 元数据)"@]
    } else {
        Seq::empty()
    }) + (if meta.album is None {
        seq!["歌词文件中未包含专辑信息 (缺失 album 元数据) (注：如果是单曲专辑请和歌曲名称同名)"@]
    } else {
        Seq::empty()
    }) + (if !(meta.platform_ids matches Some(ids) && ids@.len() > 0) {
        seq!["歌词文件中未包含任何音乐平台 ID"@]
    } else {
        Seq::empty()
    })
}

/// Appends the problems of the metadata (see `metadata_problems`).
pub fn validate_metadata(meta: &TTMLMetadata, errors: &mut Vec<String>)
    ensures
        texts(final(errors)@) == texts(old(errors)@) + metadata_problems(*meta),
{
    let ghost start = texts(errors@);
    if meta.title.is_none() {
        report(errors, to_owned_string("歌词文件中未包含歌曲名称信息 (缺失 musicName 元数据)"));
    }
    if meta.artist.is_none() {
        report(errors, to_owned_string("歌词文件中未包含音乐作者信息 (缺失 artists 元数据)"));
    }
    if meta.album.is_none() {
        report(
            errors,
            to_owned_string("歌词文件中未包含专辑信息 (缺失 album 元数据) (注：如果是单曲专辑请和歌曲名称同名)"),
        );
    }
    let has_platform_id = match &meta.platform_ids {
        Some(ids) => ids.len() > 0,
        None => false,
    };
    if !has_platform_id {
        report(errors, to_owned_string("歌词文件中未包含任何音乐平台 ID"));
    }
    assert(texts(errors@) =~= start + metadata_problems(*meta));
}

/// The syllables of a line (none when it is not timed by syllable).
pub open spec fn syllables_of(words: Option<Vec<Syllable>>) -> Seq<Syllable> {
    match words {
        Some(w) => w@,
        None => Seq::empty(),
    }
}

/// Whether the line or one of its syllables has a non-zero timestamp.
pub open spec fn line_timed(line: LyricLine) -> bool {
    line.start_time != 0 || line.end_time != 0 || exists|k: int|
        0 <= k < syllables_of(line.words).len() && #[trigger] syllable_timed(syllables_of(line.words)[k])
}

/// A syllable with a non-zero timestamp.
pub open spec fn syllable_timed(s: Syllable) -> bool {
    s.start_time != 0 || s.end_time != 0
}

/// Whether any line has a non-zero timestamp.
pub open spec fn any_timed(lines: Seq<LyricLine>) -> bool {
    exists|i: int| 0 <= i < lines.len() && #[trigger] line_timed(lines[i])
}

/// A syllable that holds more than whitespace.
pub open spec fn syllable_has_text(s: Syllable) -> bool {
    trim(s.text@).len() > 0
}

/// Whether the line holds text, in a syllable or in its whole text.
pub open spec fn line_has_content(line: LyricLine) -> bool {
    (exists|k: int|
        0 <= k < syllables_of(line.words).len() && #[trigger] syllable_has_text(syllables_of(line.words)[k]))
        || trim(line.text@).len() > 0
}

/// `"第 {l+1} 行歌词内容为空"`.
pub open spec fn empty_line_problem(l: nat) -> Seq<char> {
    "第 "@ + decimal(l + 1) + " 行歌词内容为空"@
}

/// `"第 {l+1} 行歌词结束时间 ({end}) 小于开始时间 ({start})"`.
pub open spec fn line_time_problem(l: nat, end: nat, start: nat) -> Seq<char> {
    "第 "@ + decimal(l + 1) + " 行歌词结束时间 ("@ + decimal(end) + ") 小于开始时间 ("@ + decimal(start) + ")"@
}

/// Syllable `k` of line `l` ends before it starts.
pub open spec fn syllable_end_problem(l: nat, k: nat, s: Syllable) -> Seq<char> {
    "第 "@ + decimal(l + 1) + " 行第 "@ + decimal(k + 1) + " 个音节 '"@ + s.text@ + "' 结束时间 ("@ + decimal(
        s.end_time as nat,
    ) + ") 小于开始时间 ("@ + decimal(s.start_time as nat) + ")"@
}

/// Syllable `k` of line `l` starts before an earlier syllable ended.
pub open spec fn syllable_overlap_problem(l: nat, k: nat, s: Syllable, prev_end: u32) -> Seq<char> {
    "第 "@ + decimal(l + 1) + " 行第 "@ + decimal(k + 1) + " 个音节 '"@ + s.text@ + "' 的开始时间 ("@ + decimal(
        s.start_time as nat,
    ) + ") 出现倒流 (早于前一个音节的结束时间 "@ + decimal(prev_end as nat) + ")"@
}

/// The larger of two times.
pub open spec fn max_u32(a: u32, b: u32) -> u32 {
    if a >= b {
        a
    } else {
        b
    }
}

/// The problems of the first `n` syllables of line `l`, and the latest end
/// time among those that hold text.
pub open spec fn syllable_scan(l: nat, syls: Seq<Syllable>, n: int) -> (Seq<Seq<char>>, Option<u32>)
    decreases n,
{
    if n <= 0 {
        (Seq::empty(), None)
    } else {
        let (errs, prev) = syllable_scan(l, syls, n - 1);
        let s = syls[n - 1];
        if !syllable_has_text(s) {
            (errs, prev)
        } else {
            let e1: Seq<Seq<char>> = if s.end_time < s.start_time {
                seq![syllable_end_problem(l, (n - 1) as nat, s)]
            } else {
                Seq::empty()
            };
            let e2: Seq<Seq<char>> = match prev {
                Some(p) => if s.start_time < p {
                    seq![syllable_overlap_problem(l, (n - 1) as nat, s, p)]
                } else {
                    Seq::empty()
                },
                None => Seq::empty(),
            };
            let base: u32 = match prev {
                Some(p) => p,
                None => 0,
            };
            (errs + e1 + e2, Some(max_u32(base, max_u32(s.start_time, s.end_time))))
        }
    }
}

/// The problems of line `l`.
pub open spec fn line_problems(l: nat, line: LyricLine) -> Seq<Seq<char>> {
    if !line_has_content(line) {
        seq![empty_line_problem(l)]
    } else {
        (if line.end_time < line.start_time {
            seq![line_time_problem(l, line.end_time as nat, line.start_time as nat)]
        } else {
            Seq::empty()
        }) + syllable_scan(l, syllables_of(line.words), syllables_of(line.words).len() as int).0
    }
}

/// The problems of each line, in order.
pub open spec fn lines_problems(lines: Seq<LyricLine>) -> Seq<Seq<char>>
    decreases lines.len(),
{
    if lines.len() == 0 {
        Seq::empty()
    } else {
        lines_problems(lines.drop_last()) + line_problems((lines.len() - 1) as nat, lines.last())
    }
}

/// The problems of the lyric lines, in the order they are reported.
pub open spec fn lyric_line_problems(lines: Seq<LyricLine>) -> Seq<Seq<char>> {
    if lines.len() == 0 {
        seq!["歌词内容为空"@]
    } else {
        (if !any_timed(lines) {
            seq!["所有歌词的时间戳均为 0"@]
        } else {
            Seq::empty()
        }) + lines_problems(lines)
    }
}

/// Whether, among the first `n` syllables, every one that holds text ends
/// no earlier than it starts, and starts no earlier than the start and the
/// end of every earlier one that holds text.
pub open spec fn syllables_in_order(syls: Seq<Syllable>, n: int) -> bool {
    forall|k: int|
        0 <= k < n && #[trigger] syllable_has_text(syls[k]) ==> syls[k].end_time >= syls[k].start_time && forall|
            j: int,
        |
            0 <= j < k && #[trigger] syllable_has_text(syls[j]) ==> syls[j].start_time <= syls[k].start_time
                && syls[j].end_time <= syls[k].start_time
}

/// Whether a line passes the check: it holds text, ends no earlier than it
/// starts, and its syllables are in order (see `syllables_in_order`).
pub open spec fn line_passes(line: LyricLine) -> bool {
    &&& line_has_content(line)
    &&& line.end_time >= line.start_time
    &&& syllables_in_order(syllables_of(line.words), syllables_of(line.words).len() as int)
}

/// Whether a lyric file passes the check: title, artist, album and at least
/// one platform id; at least one line; a non-zero time somewhere; every
/// line passes (see `line_passes`).
pub open spec fn lyrics_pass(meta: TTMLMetadata, lines: Seq<LyricLine>) -> bool {
    &&& meta.title is Some
    &&& meta.artist is Some
    &&& meta.album is Some
    &&& meta.platform_ids matches Some(ids) && ids@.len() > 0
    &&& lines.len() > 0
    &&& any_timed(lines)
    &&& forall|i: int| 0 <= i < lines.len() ==> #[trigger] line_passes(lines[i])
}

/// The latest time among the first `n` syllables that hold text, as the
/// scan keeps it: none when none holds text, else the largest start or end
/// time among them.
proof fn lemma_scan_latest(l: nat, syls: Seq<Syllable>, n: int)
    requires
        0 <= n <= syls.len(),
    ensures
        match syllable_scan(l, syls, n).1 {
            None => forall|j: int| 0 <= j < n ==> !#[trigger] syllable_has_text(syls[j]),
            Some(p) => (forall|j: int|
                0 <= j < n && #[trigger] syllable_has_text(syls[j]) ==> syls[j].start_time <= p && syls[j].end_time
                    <= p) && exists|j: int|
                0 <= j < n && #[trigger] syllable_has_text(syls[j]) && (p == syls[j].start_time || p
                    == syls[j].end_time),
        },
    decreases n,
{
    if n > 0 {
        lemma_scan_latest(l, syls, n - 1);
        let s = syls[n - 1];
        if syllable_has_text(s) {
            let prev = syllable_scan(l, syls, n - 1).1;
            let base: u32 = match prev {
                Some(p) => p,
                None => 0,
            };
            let q = max_u32(base, max_u32(s.start_time, s.end_time));
            match prev {
                Some(p) => {
                    let w = choose|j: int|
                        0 <= j < n - 1 && #[trigger] syllable_has_text(syls[j]) && (p == syls[j].start_time || p
                            == syls[j].end_time);
                    if q == p {
                        assert(syllable_has_text(syls[w]));
                    } else {
                        assert(syllable_has_text(syls[n - 1]));
                    }
                },
                None => {
                    assert(syllable_has_text(syls[n - 1]));
                },
            }
        }
    }
}

/// The scan of the first `n` syllables finds no problem exactly when they
/// are in order.
proof fn lemma_scan_clean(l: nat, syls: Seq<Syllable>, n: int)
    requires
        0 <= n <= syls.len(),
    ensures
        syllable_scan(l, syls, n).0.len() == 0 <==> syllables_in_order(syls, n),
    decreases n,
{
    if n > 0 {
        lemma_scan_clean(l, syls, n - 1);
        lemma_scan_latest(l, syls, n - 1);
        let s = syls[n - 1];
        if syllable_has_text(s) {
            if syllables_in_order(syls, n) {
                assert(syllables_in_order(syls, n - 1));
                assert(syllable_has_text(syls[n - 1]));
                match syllable_scan(l, syls, n - 1).1 {
                    Some(p) => {
                        let w = choose|j: int|
                            0 <= j < n - 1 && #[trigger] syllable_has_text(syls[j]) && (p == syls[j].start_time
                                || p == syls[j].end_time);
                        assert(syllable_has_text(syls[w]));
                    },
                    None => {},
                }
            }
            if syllable_scan(l, syls, n).0.len() == 0 {
                assert forall|k: int| 0 <= k < n && #[trigger] syllable_has_text(syls[k]) implies syls[k].end_time
                    >= syls[k].start_time && forall|j: int|
                    0 <= j < k && #[trigger] syllable_has_text(syls[j]) ==> syls[j].start_time <= syls[k].start_time
                        && syls[j].end_time <= syls[k].start_time by {
                    if k == n - 1 {
                        assert forall|j: int| 0 <= j < k && #[trigger] syllable_has_text(syls[j]) implies syls[j].start_time
                            <= syls[k].start_time && syls[j].end_time <= syls[k].start_time by {
                            assert(syllable_has_text(syls[j]));
                        }
                    }
                }
            }
        } else {
            if syllables_in_order(syls, n - 1) {
                assert forall|k: int| 0 <= k < n && #[trigger] syllable_has_text(syls[k]) implies syls[k].end_time
                    >= syls[k].start_time && forall|j: int|
                    0 <= j < k && #[trigger] syllable_has_text(syls[j]) ==> syls[j].start_time <= syls[k].start_time
                        && syls[j].end_time <= syls[k].start_time by {
                    assert(k < n - 1);
                }
            }
        }
    }
}

/// The lines report no problem exactly when every line passes.
proof fn lemma_lines_clean(lines: Seq<LyricLine>)
    ensures
        lines_problems(lines).len() == 0 <==> forall|i: int| 0 <= i < lines.len() ==> #[trigger] line_passes(lines[i]),
    decreases lines.len(),
{
    if lines.len() > 0 {
        let n = lines.len() - 1;
        let line = lines.last();
        lemma_lines_clean(lines.drop_last());
        let syls = syllables_of(line.words);
        lemma_scan_clean(n as nat, syls, syls.len() as int);
        assert(line_problems(n as nat, line).len() == 0 <==> line_passes(line));
        if forall|i: int| 0 <= i < lines.len() ==> #[trigger] line_passes(lines[i]) {
            assert forall|i: int| 0 <= i < lines.drop_last().len() implies #[trigger] line_passes(
                lines.drop_last()[i],
            ) by {
                assert(lines.drop_last()[i] == lines[i]);
            }
            assert(line_passes(lines[n]));
        } else {
            let i = choose|i: int| 0 <= i < lines.len() && !#[trigger] line_passes(lines[i]);
            if i < n {
                assert(lines.drop_last()[i] == lines[i]);
            }
        }
    }
}

/// A lyric file reports no problem exactly when it passes (see
/// `lyrics_pass`).
pub proof fn lemma_lyrics_pass(meta: TTMLMetadata, lines: Seq<LyricLine>)
    ensures
        (metadata_problems(meta) + lyric_line_problems(lines)).len() == 0 <==> lyrics_pass(meta, lines),
{
    lemma_lines_clean(lines);
}

/// Whether any line, or any of its syllables, has a non-zero timestamp.
pub fn has_any_non_zero_timestamp(lines: &[LyricLine]) -> (r: bool)
    ensures
        r == any_timed(lines@),
{
    let mut i: usize = 0;
    while i < lines.len()
        invariant
            i <= lines@.len(),
            forall|k: int| 0 <= k < i ==> !#[trigger] line_timed(lines@[k]),
        decreases lines@.len() - i,
    {
        let line = &lines[i];
        if line.start_time != 0 || line.end_time != 0 {
            assert(line_timed(lines@[i as int]));
            return true;
        }
        match &line.words {
            Some(w) => {
                let mut k: usize = 0;
                while k < w.len()
                    invariant
                        i < lines@.len(),
                        *line == lines@[i as int],
                        line.words == Some(*w),
                        k <= w@.len(),
                        forall|j: int| 0 <= j < k ==> !#[trigger] syllable_timed(w@[j]),
                    decreases w@.len() - k,
                {
                    if w[k].start_time != 0 || w[k].end_time != 0 {
                        assert(syllable_timed(syllables_of(line.words)[k as int]));
                        assert(line_timed(lines@[i as int]));
                        return true;
                    }
                    k = k + 1;
                }
                assert(!line_timed(lines@[i as int]));
            },
            None => {
                assert(!line_timed(lines@[i as int]));
            },
        }
        i = i + 1;
    }
    false
}

/// Whether the line holds text (see `line_has_content`).
fn line_has_content_exec(line: &LyricLine) -> (r: bool)
    ensures
        r == line_has_content(*line),
{
    match &line.words {
        Some(w) => {
            let mut k: usize = 0;
            while k < w.len()
                invariant
                    line.words == Some(*w),
                    k <= w@.len(),
                    forall|j: int| 0 <= j < k ==> !#[trigger] syllable_has_text(w@[j]),
                decreases w@.len() - k,
            {
                if !is_blank(w[k].text.as_str()) {
                    assert(syllable_has_text(syllables_of(line.words)[k as int]));
                    return true;
                }
                k = k + 1;
            }
        },
        None => {},
    }
    !is_blank(line.text.as_str())
}

/// `"第 {l+1} 行第 {k+1} 个音节 '{text}'"`, the start of a syllable's problem.
fn syllable_prefix(l: usize, k: usize, s: &Syllable) -> (r: String)
    requires
        l < usize::MAX,
        k < usize::MAX,
    ensures
        r@ == "第 "@ + decimal(l as nat + 1) + " 行第 "@ + decimal(k as nat + 1) + " 个音节 '"@ + s.text@,
{
    let mut r = to_owned_string("第 ");
    push_decimal(&mut r, (l + 1) as u64);
    push_str(&mut r, " 行第 ");
    push_decimal(&mut r, (k + 1) as u64);
    push_str(&mut r, " 个音节 '");
    push_str(&mut r, s.text.as_str());
    r
}

/// Appends the problems of the syllables of line `l` (see `syllable_scan`).
fn push_syllable_problems(errors: &mut Vec<String>, l: usize, syls: &Vec<Syllable>)
    requires
        l < usize::MAX,
    ensures
        texts(final(errors)@) == texts(old(errors)@) + syllable_scan(l as nat, syls@, syls@.len() as int).0,
{
    let ghost start = texts(errors@);
    let mut prev_syl_end: Option<u32> = None;
    let mut k: usize = 0;
    while k < syls.len()
        invariant
            k <= syls@.len(),
            l < usize::MAX,
            texts(errors@) == start + syllable_scan(l as nat, syls@, k as int).0,
            prev_syl_end == syllable_scan(l as nat, syls@, k as int).1,
        decreases syls@.len() - k,
    {
        let s = &syls[k];
        let ghost before = texts(errors@);
        if !is_blank(s.text.as_str()) {
            if s.end_time < s.start_time {
                let mut msg = syllable_prefix(l, k, s);
                push_str(&mut msg, "' 结束时间 (");
                push_decimal(&mut msg, s.end_time as u64);
                push_str(&mut msg, ") 小于开始时间 (");
                push_decimal(&mut msg, s.start_time as u64);
                push_str(&mut msg, ")");
                assert(msg@ =~= syllable_end_problem(l as nat, k as nat, *s));
                report(errors, msg);
            }
            let ghost mid = texts(errors@);
            match prev_syl_end {
                Some(prev_end) => {
                    if s.start_time < prev_end {
                        let mut msg = syllable_prefix(l, k, s);
                        push_str(&mut msg, "' 的开始时间 (");
                        push_decimal(&mut msg, s.start_time as u64);
                        push_str(&mut msg, ") 出现倒流 (早于前一个音节的结束时间 ");
                        push_decimal(&mut msg, prev_end as u64);
                        push_str(&mut msg, ")");
                        assert(msg@ =~= syllable_overlap_problem(l as nat, k as nat, *s, prev_end));
                        report(errors, msg);
                    }
                },
                None => {},
            }
            let valid_syl_end = if s.start_time >= s.end_time { s.start_time } else { s.end_time };
            let base = match prev_syl_end {
                Some(p) => p,
                None => 0,
            };
            prev_syl_end = Some(if base >= valid_syl_end { base } else { valid_syl_end });
        }
        assert(texts(errors@) =~= start + syllable_scan(l as nat, syls@, k + 1).0);
        k = k + 1;
    }
}

/// Appends the problems of line `line_idx` (see `line_problems`).
pub fn validate_single_line(line_idx: usize, line: &LyricLine, errors: &mut Vec<String>)
    requires
        line_idx < usize::MAX,
    ensures
        texts(final(errors)@) == texts(old(errors)@) + line_problems(line_idx as nat, *line),
{
    let ghost start = texts(errors@);
    if !line_has_content_exec(line) {
        let mut msg = to_owned_string("第 ");
        push_decimal(&mut msg, (line_idx + 1) as u64);
        push_str(&mut msg, " 行歌词内容为空");
        report(errors, msg);
        return;
    }
    if line.end_time < line.start_time {
        let mut msg = to_owned_string("第 ");
        push_decimal(&mut msg, (line_idx + 1) as u64);
        push_str(&mut msg, " 行歌词结束时间 (");
        push_decimal(&mut msg, line.end_time as u64);
        push_str(&mut msg, ") 小于开始时间 (");
        push_decimal(&mut msg, line.start_time as u64);
        push_str(&mut msg, ")");
        report(errors, msg);
    }
    let ghost mid = texts(errors@);
    match &line.words {
        Some(w) => push_syllable_problems(errors, line_idx, w),
        None => {},
    }
    assert(texts(errors@) =~= start + line_problems(line_idx as nat, *line));
}

/// Appends the problems of the lyric lines (see `lyric_line_problems`).
pub fn validate_lyric_lines(lines: &[LyricLine], errors: &mut Vec<String>)
    ensures
        texts(final(errors)@) == texts(old(errors)@) + lyric_line_problems(lines@),
{
    let ghost start = texts(errors@);
    if lines.len() == 0 {
        report(errors, to_owned_string("歌词内容为空"));
        return;
    }
    if !has_any_non_zero_timestamp(lines) {
        report(errors, to_owned_string("所有歌词的时间戳均为 0"));
    }
    let ghost head = texts(errors@);
    let mut i: usize = 0;
    while i < lines.len()
        invariant
            i <= lines@.len(),
            texts(errors@) == head + lines_problems(lines@.take(i as int)),
        decreases lines@.len() - i,
    {
        assert(lines@.take(i + 1).drop_last() =~= lines@.take(i as int));
        validate_single_line(i, &lines[i], errors);
        assert(texts(errors@) =~= head + lines_problems(lines@.take(i + 1)));
        i = i + 1;
    }
    assert(lines@.take(lines@.len() as int) =~= lines@);
    assert(texts(errors@) =~= start + lyric_line_problems(lines@));
}

/// Checks a lyric file. `Ok` when there is no problem; otherwise every
/// problem of the metadata (see `metadata_problems`), then every problem of
/// the lines (see `lyric_line_problems`), in that order. It passes exactly
/// when `lyrics_pass` holds.
pub fn validate_lyrics_and_metadata(result: &TTMLResult) -> (r: Result<(), Vec<String>>)
    ensures
        match r {
            Ok(()) => metadata_problems(result.metadata) + lyric_line_problems(result.lines@) == Seq::<
                Seq<char>,
            >::empty(),
            Err(errors) => texts(errors@) == metadata_problems(result.metadata) + lyric_line_problems(
                result.lines@,
            ) && errors@.len() > 0,
        },
        r is Ok <==> lyrics_pass(result.metadata, result.lines@),
{
    proof {
        lemma_lyrics_pass(result.metadata, result.lines@);
    }
    let mut errors: Vec<String> = Vec::new();
    assert(texts(errors@) =~= Seq::<Seq<char>>::empty());
    validate_metadata(&result.metadata, &mut errors);
    validate_lyric_lines(result.lines.as_slice(), &mut errors);
    assert(texts(errors@) =~= metadata_problems(result.metadata) + lyric_line_problems(result.lines@));
    if errors.len() == 0 {
        Ok(())
    } else {
        Err(errors)
    }
}

} // verus!
