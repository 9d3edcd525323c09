//! The YRC lyric writer: `[start,duration](start,duration,0)text...` lines.

use vstd::prelude::*;

use crate::lys::nonempty;
use crate::model::{flag, nonempty_words, sat_sub, Syllable, TTMLResult};
use crate::text::{chars_of, decimal, join_strings, join_with, push_char, push_decimal, push_str, texts};

verus! {

/// A character of YRC text: ASCII parentheses become full-width ones.
pub open spec fn yrc_char(c: char) -> char {
    if c == '(' {
        '（'
    } else if c == ')' {
        '）'
    } else {
        c
    }
}

/// Text made safe for YRC (see `yrc_char`).
pub open spec fn yrc_safe(s: Seq<char>) -> Seq<char> {
    s.map_values(|c: char| yrc_char(c))
}

/// Syllable `i` of `len` in YRC: `(start,duration,0)text`, in full-width
/// brackets at the edges of a background line.
pub open spec fn yrc_word(w: Syllable, i: int, len: int, is_bg: bool) -> Seq<char> {
    "("@ + decimal(w.start_time as nat) + ","@ + decimal(sat_sub(w.end_time, w.start_time)) + ",0)"@ + (
    if is_bg && i == 0 {
        "（"@
    } else {
        Seq::empty()
    }) + yrc_safe(w.text@) + (if is_bg && i == len - 1 {
        "）"@
    } else {
        Seq::empty()
    }) + (if flag(w.ends_with_space) { " "@ } else { Seq::empty() })
}

/// The first `n` syllables of `ws` in YRC.
pub open spec fn yrc_words(ws: Seq<Syllable>, n: int, is_bg: bool) -> Seq<char>
    decreases n,
{
    if n <= 0 {
        Seq::empty()
    } else {
        yrc_words(ws, n - 1, is_bg) + yrc_word(ws[n - 1], n - 1, ws.len() as int, is_bg)
    }
}

/// A whole YRC line.
pub open spec fn yrc_line(start: u32, end: u32, text: Seq<char>, words: Option<Seq<Syllable>>, is_bg: bool) -> Seq<
    char,
> {
    "["@ + decimal(start as nat) + ","@ + decimal(sat_sub(end, start)) + "]"@ + match words {
        Some(ws) => yrc_words(ws, ws.len() as int, is_bg),
        None => "("@ + decimal(start as nat) + ","@ + decimal(sat_sub(end, start)) + ",0)"@ + (if is_bg {
            "（"@ + yrc_safe(text) + "）"@
        } else {
            yrc_safe(text)
        }),
    }
}

/// The YRC lines of the lyrics: each line, then its background vocals.
pub open spec fn yrc_lines(lines: Seq<crate::model::LyricLine>) -> Seq<Seq<char>>
    decreases lines.len(),
{
    if lines.len() == 0 {
        Seq::empty()
    } else {
        let l = lines.last();
        let main = yrc_line(l.start_time, l.end_time, l.text@, nonempty_words(l.words), false);
        yrc_lines(lines.drop_last()) + seq![main] + match l.background_vocal {
            Some(bg) => seq![yrc_line(bg.start_time, bg.end_time, bg.text@, nonempty_words(bg.words), true)],
            None => Seq::empty(),
        }
    }
}

/// The number of background lines among the lines.
pub open spec fn background_count(lines: Seq<crate::model::LyricLine>) -> nat
    decreases lines.len(),
{
    if lines.len() == 0 {
        0
    } else {
        background_count(lines.drop_last()) + if lines.last().background_vocal is Some {
            1nat
        } else {
            0nat
        }
    }
}

/// The YRC text has one line per lyric line and one per background line,
/// each background line right after its own line.
pub proof fn lemma_yrc_line_count(lines: Seq<crate::model::LyricLine>)
    ensures
        yrc_lines(lines).len() == lines.len() + background_count(lines),
    decreases lines.len(),
{
    if lines.len() > 0 {
        lemma_yrc_line_count(lines.drop_last());
    }
}

/// Where line `i` stands among the YRC lines: after every earlier line
/// and every earlier background line.
pub open spec fn yrc_row(lines: Seq<crate::model::LyricLine>, i: int) -> int {
    i + background_count(lines.take(i))
}

/// Each lyric line gives the YRC line at its row (see `yrc_row`), which
/// opens with `[start,duration]`; its background vocals, when it has them,
/// give the YRC line right after it, in full-width brackets.
pub proof fn lemma_yrc_layout(lines: Seq<crate::model::LyricLine>, i: int)
    requires
        0 <= i < lines.len(),
    ensures
        yrc_row(lines, i) < yrc_lines(lines).len(),
        yrc_lines(lines)[yrc_row(lines, i)] == yrc_line(
            lines[i].start_time,
            lines[i].end_time,
            lines[i].text@,
            nonempty_words(lines[i].words),
            false,
        ),
        yrc_lines(lines)[yrc_row(lines, i)].take(
            ("["@ + decimal(lines[i].start_time as nat) + ","@ + decimal(
                sat_sub(lines[i].end_time, lines[i].start_time),
            ) + "]"@).len() as int,
        ) == "["@ + decimal(lines[i].start_time as nat) + ","@ + decimal(
            sat_sub(lines[i].end_time, lines[i].start_time),
        ) + "]"@,
        lines[i].background_vocal matches Some(bg) ==> yrc_row(lines, i) + 1 < yrc_lines(lines).len()
            && yrc_lines(lines)[yrc_row(lines, i) + 1] == yrc_line(
            bg.start_time,
            bg.end_time,
            bg.text@,
            nonempty_words(bg.words),
            true,
        ),
    decreases lines.len(),
{
    let n = lines.len() - 1;
    let front = lines.drop_last();
    lemma_yrc_line_count(front);
    lemma_yrc_line_count(lines);
    if i < n {
        lemma_yrc_layout(front, i);
        assert(front.take(i) =~= lines.take(i));
        assert(front[i] == lines[i]);
    } else {
        assert(lines.take(i) =~= front);
    }
    let l = lines[i];
    let head = "["@ + decimal(l.start_time as nat) + ","@ + decimal(sat_sub(l.end_time, l.start_time)) + "]"@;
    let row = yrc_lines(lines)[yrc_row(lines, i)];
    assert(row.take(head.len() as int) =~= head);
}

/// The timing group of a syllable in YRC: `(start,duration,0)`.
pub open spec fn yrc_timing(w: Syllable) -> Seq<char> {
    "("@ + decimal(w.start_time as nat) + ","@ + decimal(sat_sub(w.end_time, w.start_time)) + ",0)"@
}

/// The space that follows a syllable, if any.
pub open spec fn trailing_space(w: Syllable) -> Seq<char> {
    if flag(w.ends_with_space) {
        " "@
    } else {
        Seq::empty()
    }
}

/// A background line in YRC keeps its syllables in one pair of full-width
/// brackets: each syllable is written as its timing group, a text and its
/// trailing space, and the texts of all syllables, in order, concatenate
/// to `（`, every syllable's text made safe (see `yrc_safe`), and `）`.
pub proof fn lemma_yrc_background_brackets(ws: Seq<Syllable>)
    requires
        ws.len() >= 1,
    ensures
        exists|parts: Seq<Seq<char>>|
            parts.len() == ws.len() && (forall|i: int|
                0 <= i < ws.len() ==> #[trigger] yrc_word(ws[i], i, ws.len() as int, true) == yrc_timing(ws[i])
                    + parts[i] + trailing_space(ws[i])) && crate::tokenize::concat(parts) == "（"@
                + crate::tokenize::concat(Seq::new(ws.len(), |i: int| yrc_safe(ws[i].text@))) + "）"@,
{
    let n = ws.len() as int;
    let xs = Seq::new(ws.len(), |i: int| yrc_safe(ws[i].text@));
    let parts = Seq::new(
        ws.len(),
        |i: int|
            (if i == 0 { "（"@ } else { Seq::<char>::empty() }) + yrc_safe(ws[i].text@) + (if i == n - 1 {
                "）"@
            } else {
                Seq::<char>::empty()
            }),
    );
    assert forall|i: int| 0 <= i < ws.len() implies #[trigger] yrc_word(ws[i], i, n, true) == yrc_timing(ws[i])
        + parts[i] + trailing_space(ws[i]) by {
        assert(yrc_word(ws[i], i, n, true) =~= yrc_timing(ws[i]) + parts[i] + trailing_space(ws[i]));
    }
    assert forall|i: int| 0 <= i < parts.len() implies #[trigger] parts[i] == (if i == 0 {
        "（"@
    } else {
        Seq::<char>::empty()
    }) + xs[i] + (if i == parts.len() - 1 {
        "）"@
    } else {
        Seq::<char>::empty()
    }) by {}
    crate::tokenize::lemma_concat_enclosed(parts, xs, "（"@, "）"@);
}

/// A background line without syllables is written as its header, one
/// timing group for the whole line, and its text made safe in full-width
/// brackets.
pub proof fn lemma_yrc_unsynced_background(start: u32, end: u32, text: Seq<char>)
    ensures
        yrc_line(start, end, text, None, true) == "["@ + decimal(start as nat) + ","@ + decimal(sat_sub(end, start))
            + "]"@ + "("@ + decimal(start as nat) + ","@ + decimal(sat_sub(end, start)) + ",0)"@ + "（"@ + yrc_safe(text)
            + "）"@,
{
    assert(yrc_line(start, end, text, None, true) =~= "["@ + decimal(start as nat) + ","@ + decimal(sat_sub(end, start))
        + "]"@ + "("@ + decimal(start as nat) + ","@ + decimal(sat_sub(end, start)) + ",0)"@ + "（"@ + yrc_safe(text)
        + "）"@);
}

/// Text made safe for YRC holds no ASCII parenthesis, and keeps its length.
pub proof fn lemma_yrc_safe_no_parens(s: Seq<char>)
    ensures
        yrc_safe(s).len() == s.len(),
        forall|i: int| 0 <= i < s.len() ==> #[trigger] yrc_safe(s)[i] != '(' && yrc_safe(s)[i] != ')',
{
}

/// Appends `s` made safe for YRC (see `yrc_safe`).
fn push_yrc_safe(out: &mut String, s: &str)
    ensures
        final(out)@ == old(out)@ + yrc_safe(s@),
{
    let v = chars_of(s);
    let ghost start = out@;
    let mut i: usize = 0;
    while i < v.len()
        invariant
            i <= v@.len(),
            v@ == s@,
            out@ == start + yrc_safe(s@.take(i as int)),
        decreases v@.len() - i,
    {
        let c = v[i];
        if c == '(' {
            push_char(out, '（');
        } else if c == ')' {
            push_char(out, '）');
        } else {
            push_char(out, c);
        }
        assert(yrc_safe(s@.take(i + 1)) =~= yrc_safe(s@.take(i as int)).push(yrc_char(c)));
        i = i + 1;
    }
    assert(s@.take(s@.len() as int) =~= s@);
}

/// Appends syllable `i` of `len` in YRC (see `yrc_word`).
fn push_yrc_word(out: &mut String, word: &Syllable, i: usize, len: usize, is_bg: bool)
    requires
        i < len,
    ensures
        final(out)@ == old(out)@ + yrc_word(*word, i as int, len as int, is_bg),
{
    proof {
        reveal_strlit("(");
        reveal_strlit(",");
        reveal_strlit(",0)");
        reveal_strlit("（");
        reveal_strlit("）");
        reveal_strlit(" ");
    }
    let mut piece = String::new();
    push_char(&mut piece, '(');
    push_decimal(&mut piece, word.start_time as u64);
    push_char(&mut piece, ',');
    push_decimal(&mut piece, word.end_time.saturating_sub(word.start_time) as u64);
    push_str(&mut piece, ",0)");
    let ghost p1 = piece@;
    assert(p1 =~= "("@ + decimal(word.start_time as nat) + ","@ + decimal(sat_sub(word.end_time, word.start_time))
        + ",0)"@);
    if is_bg && i == 0 {
        push_char(&mut piece, '（');
    }
    let ghost p2 = piece@;
    assert(p2 =~= p1 + (if is_bg && i == 0 { "（"@ } else { Seq::<char>::empty() }));
    push_yrc_safe(&mut piece, word.text.as_str());
    if is_bg && i == len - 1 {
        push_char(&mut piece, '）');
    }
    let ghost p3 = piece@;
    assert(p3 =~= p2 + yrc_safe(word.text@) + (if is_bg && i == len - 1 { "）"@ } else { Seq::<char>::empty() }));
    match word.ends_with_space {
        Some(true) => push_char(&mut piece, ' '),
        _ => {},
    }
    assert(piece@ =~= p3 + (if flag(word.ends_with_space) { " "@ } else { Seq::<char>::empty() }));
    assert(piece@ == yrc_word(*word, i as int, len as int, is_bg));
    push_str(out, piece.as_str());
}

/// Writer of YRC lyrics.
#[derive(Debug)]
pub struct YrcGenerator {}

impl Default for YrcGenerator {
    fn default() -> (r: Self) {
        YrcGenerator {}
    }
}

impl YrcGenerator {
    /// A writer.
    pub fn new() -> (r: Self) {
        YrcGenerator {}
    }

    /// The YRC text of the lyrics: the lines of `yrc_lines`, one per line.
    pub fn generate(&self, ir: &TTMLResult) -> (r: String)
        ensures
            r@ == join_with(yrc_lines(ir.lines@), "\n"@),
    {
        let mut output_lines: Vec<String> = Vec::new();
        let mut i: usize = 0;
        while i < ir.lines.len()
            invariant
                i <= ir.lines@.len(),
                texts(output_lines@) == yrc_lines(ir.lines@.take(i as int)),
            decreases ir.lines@.len() - i,
        {
            let line = &ir.lines[i];
            assert(ir.lines@.take(i + 1).drop_last() =~= ir.lines@.take(i as int));
            let main_line_str = self.format_line(
                line.start_time,
                line.end_time,
                line.text.as_str(),
                nonempty(&line.words),
                false,
            );
            output_lines.push(main_line_str);
            match &line.background_vocal {
                Some(bg_line) => {
                    let bg_line_str = self.format_line(
                        bg_line.start_time,
                        bg_line.end_time,
                        bg_line.text.as_str(),
                        nonempty(&bg_line.words),
                        true,
                    );
                    output_lines.push(bg_line_str);
                },
                None => {},
            }
            assert(texts(output_lines@) =~= yrc_lines(ir.lines@.take(i + 1)));
            i = i + 1;
        }
        assert(ir.lines@.take(ir.lines@.len() as int) =~= ir.lines@);
        join_strings(&output_lines, "\n")
    }

    /// One YRC line (see `yrc_line`); an empty word list counts as no words.
    pub fn format_line(
        &self,
        start_time: u32,
        end_time: u32,
        text: &str,
        words: Option<&Vec<Syllable>>,
        is_bg: bool,
    ) -> (r: String)
        ensures
            r@ == yrc_line(
                start_time,
                end_time,
                text@,
                match words {
                    Some(w) => if w@.len() > 0 {
                        Some(w@)
                    } else {
                        None
                    },
                    None => None,
                },
                is_bg,
            ),
    {
        let words = match words {
            Some(w) => if w.len() > 0 {
                Some(w)
            } else {
                None
            },
            None => None,
        };
        proof {
            reveal_strlit("[");
            reveal_strlit("]");
            reveal_strlit("(");
            reveal_strlit(",");
            reveal_strlit(",0)");
            reveal_strlit("（");
            reveal_strlit("）");
        }
        let line_duration = end_time.saturating_sub(start_time);
        let mut out = String::new();
        push_char(&mut out, '[');
        push_decimal(&mut out, start_time as u64);
        push_char(&mut out, ',');
        push_decimal(&mut out, line_duration as u64);
        push_char(&mut out, ']');
        let ghost head = out@;
        assert(head =~= "["@ + decimal(start_time as nat) + ","@ + decimal(sat_sub(end_time, start_time)) + "]"@);
        match words {
            Some(w) => {
                let len = w.len();
                let mut i: usize = 0;
                while i < len
                    invariant
                        i <= len,
                        len == w@.len(),
                        out@ == head + yrc_words(w@, i as int, is_bg),
                    decreases len - i,
                {
                    push_yrc_word(&mut out, &w[i], i, len, is_bg);
                    i = i + 1;
                }
            },
            None => {
                let mut piece = String::new();
                push_char(&mut piece, '(');
                push_decimal(&mut piece, start_time as u64);
                push_char(&mut piece, ',');
                push_decimal(&mut piece, line_duration as u64);
                push_str(&mut piece, ",0)");
                let ghost p1 = piece@;
                if is_bg {
                    push_char(&mut piece, '（');
                }
                push_yrc_safe(&mut piece, text);
                if is_bg {
                    push_char(&mut piece, '）');
                }
                assert(piece@ =~= p1 + (if is_bg { "（"@ + yrc_safe(text@) + "）"@ } else { yrc_safe(text@) }));
                push_str(&mut out, piece.as_str());
            },
        }
        out
    }
}

} // verus!
