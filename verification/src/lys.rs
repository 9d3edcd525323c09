//! The LYS lyric writer: `[property]text(start,duration)...` lines.

use vstd::prelude::*;

use crate::model::{flag, nonempty_words, sat_sub, Syllable, TTMLResult};
use crate::text::{decimal, join_strings, join_with, push_char, push_decimal, push_str, texts};
use crate::types::opt_text;

verus! {

/// The line property of LYS: background vocals and duet side.
pub open spec fn lys_property(is_bg: bool, agent: Option<Seq<char>>) -> nat {
    let is_duet = match agent {
        Some(a) => a != "v1"@,
        None => false,
    };
    if is_bg && is_duet {
        8
    } else if is_bg {
        6
    } else if is_duet {
        2
    } else {
        0
    }
}

/// Whether a line is sung on the duet side: its singer is given and is not
/// the first one.
pub open spec fn on_duet_side(agent: Option<Seq<char>>) -> bool {
    agent matches Some(a) && a != "v1"@
}

/// The LYS property adds 6 for background vocals and 2 for the duet side,
/// and every LYS line opens with it in square brackets.
pub proof fn lemma_lys_property_parts(
    start: u32,
    end: u32,
    text: Seq<char>,
    words: Option<Seq<Syllable>>,
    is_bg: bool,
    agent: Option<Seq<char>>,
)
    ensures
        lys_property(is_bg, agent) == (if is_bg { 6nat } else { 0nat }) + (if on_duet_side(agent) {
            2nat
        } else {
            0nat
        }),
        ("["@ + decimal(lys_property(is_bg, agent)) + "]"@).is_prefix_of(lys_line(start, end, text, words, is_bg, agent)),
{
    let head = "["@ + decimal(lys_property(is_bg, agent)) + "]"@;
    assert(lys_line(start, end, text, words, is_bg, agent).take(head.len() as int) =~= head);
}

/// Syllable `i` of `len` in LYS: `text(start,duration)`, in brackets at the
/// edges of a background line.
pub open spec fn lys_word(w: Syllable, i: int, len: int, is_bg: bool) -> Seq<char> {
    (if is_bg && i == 0 { "("@ } else { Seq::empty() }) + w.text@ + (if is_bg && i == len - 1 {
        ")"@
    } else {
        Seq::empty()
    }) + (if flag(w.ends_with_space) { " "@ } else { Seq::empty() }) + "("@ + decimal(w.start_time as nat)
        + ","@ + decimal(sat_sub(w.end_time, w.start_time)) + ")"@
}

/// The timing group of a syllable in LYS: `(start,duration)`.
pub open spec fn lys_timing(w: Syllable) -> Seq<char> {
    "("@ + decimal(w.start_time as nat) + ","@ + decimal(sat_sub(w.end_time, w.start_time)) + ")"@
}

/// A background line in LYS keeps its syllables in one pair of brackets:
/// each syllable is written as a text, its trailing space and its timing
/// group, and the texts of all syllables, in order, concatenate to `(`,
/// every syllable's text, and `)`.
pub proof fn lemma_lys_background_brackets(ws: Seq<Syllable>)
    requires
        ws.len() >= 1,
    ensures
        exists|parts: Seq<Seq<char>>|
            parts.len() == ws.len() && (forall|i: int|
                0 <= i < ws.len() ==> #[trigger] lys_word(ws[i], i, ws.len() as int, true) == parts[i]
                    + crate::yrc::trailing_space(ws[i]) + lys_timing(ws[i])) && crate::tokenize::concat(parts) == "("@
                + crate::tokenize::concat(Seq::new(ws.len(), |i: int| ws[i].text@)) + ")"@,
{
    let n = ws.len() as int;
    let xs = Seq::new(ws.len(), |i: int| ws[i].text@);
    let parts = Seq::new(
        ws.len(),
        |i: int|
            (if i == 0 { "("@ } else { Seq::<char>::empty() }) + ws[i].text@ + (if i == n - 1 {
                ")"@
            } else {
                Seq::<char>::empty()
            }),
    );
    assert forall|i: int| 0 <= i < ws.len() implies #[trigger] lys_word(ws[i], i, n, true) == parts[i]
        + crate::yrc::trailing_space(ws[i]) + lys_timing(ws[i]) by {
        assert(lys_word(ws[i], i, n, true) =~= parts[i] + crate::yrc::trailing_space(ws[i]) + lys_timing(ws[i]));
    }
    crate::tokenize::lemma_concat_enclosed(parts, xs, "("@, ")"@);
}

/// A background line without syllables is written as its property, its
/// text in brackets, and its timing group.
pub proof fn lemma_lys_unsynced_background(start: u32, end: u32, text: Seq<char>, agent: Option<Seq<char>>)
    ensures
        lys_line(start, end, text, None, true, agent) == "["@ + decimal(lys_property(true, agent)) + "]"@ + "("@ + text
            + ")"@ + "("@ + decimal(start as nat) + ","@ + decimal(sat_sub(end, start)) + ")"@,
{
    assert(lys_line(start, end, text, None, true, agent) =~= "["@ + decimal(lys_property(true, agent)) + "]"@ + "("@
        + text + ")"@ + "("@ + decimal(start as nat) + ","@ + decimal(sat_sub(end, start)) + ")"@);
}

/// The first `n` syllables of `ws` in LYS.
pub open spec fn lys_words(ws: Seq<Syllable>, n: int, is_bg: bool) -> Seq<char>
    decreases n,
{
    if n <= 0 {
        Seq::empty()
    } else {
        lys_words(ws, n - 1, is_bg) + lys_word(ws[n - 1], n - 1, ws.len() as int, is_bg)
    }
}

/// A whole LYS line.
pub open spec fn lys_line(
    start: u32,
    end: u32,
    text: Seq<char>,
    words: Option<Seq<Syllable>>,
    is_bg: bool,
    agent: Option<Seq<char>>,
) -> Seq<char> {
    "["@ + decimal(lys_property(is_bg, agent)) + "]"@ + match words {
        Some(ws) => lys_words(ws, ws.len() as int, is_bg),
        None => (if is_bg { "("@ + text + ")"@ } else { text }) + "("@ + decimal(start as nat) + ","@
            + decimal(sat_sub(end, start)) + ")"@,
    }
}

/// The LYS lines of the lyrics: each line, then its background vocals.
pub open spec fn lys_lines(lines: Seq<crate::model::LyricLine>) -> Seq<Seq<char>>
    decreases lines.len(),
{
    if lines.len() == 0 {
        Seq::empty()
    } else {
        let l = lines.last();
        let main = lys_line(l.start_time, l.end_time, l.text@, nonempty_words(l.words), false, opt_text(l.agent_id));
        lys_lines(lines.drop_last()) + seq![main] + match l.background_vocal {
            Some(bg) => seq![
                lys_line(bg.start_time, bg.end_time, bg.text@, nonempty_words(bg.words), true, opt_text(l.agent_id)),
            ],
            None => Seq::empty(),
        }
    }
}

/// Writer of LYS lyrics.
#[derive(Debug)]
pub struct LysGenerator {}

impl Default for LysGenerator {
    fn default() -> (r: Self) {
        LysGenerator {}
    }
}

/// The syllables of an optional list, when there is at least one.
pub(crate) fn nonempty(words: &Option<Vec<Syllable>>) -> (r: Option<&Vec<Syllable>>)
    ensures
        match r {
            Some(w) => nonempty_words(*words) == Some(w@),
            None => nonempty_words(*words) is None,
        },
{
    match words {
        Some(w) => if w.len() > 0 {
            Some(w)
        } else {
            None
        },
        None => None,
    }
}

/// Appends syllable `i` of `len` in LYS (see `lys_word`).
fn push_lys_word(out: &mut String, word: &Syllable, i: usize, len: usize, is_bg: bool)
    requires
        i < len,
    ensures
        final(out)@ == old(out)@ + lys_word(*word, i as int, len as int, is_bg),
{
    proof {
        reveal_strlit("(");
        reveal_strlit(")");
        reveal_strlit(" ");
        reveal_strlit(",");
    }
    let mut piece = String::new();
    if is_bg && i == 0 {
        push_char(&mut piece, '(');
    }
    let ghost p1 = piece@;
    assert(p1 == (if is_bg && i == 0 { "("@ } else { Seq::<char>::empty() }));
    push_str(&mut piece, word.text.as_str());
    if is_bg && i == len - 1 {
        push_char(&mut piece, ')');
    }
    let ghost p2 = piece@;
    assert(p2 =~= p1 + word.text@ + (if is_bg && i == len - 1 { ")"@ } else { Seq::<char>::empty() }));
    match word.ends_with_space {
        Some(true) => push_char(&mut piece, ' '),
        _ => {},
    }
    let ghost p3 = piece@;
    assert(p3 =~= p2 + (if flag(word.ends_with_space) { " "@ } else { Seq::<char>::empty() }));
    push_char(&mut piece, '(');
    push_decimal(&mut piece, word.start_time as u64);
    push_char(&mut piece, ',');
    let word_duration = word.end_time.saturating_sub(word.start_time);
    push_decimal(&mut piece, word_duration as u64);
    push_char(&mut piece, ')');
    assert(piece@ =~= p3 + "("@ + decimal(word.start_time as nat) + ","@ + decimal(
        sat_sub(word.end_time, word.start_time),
    ) + ")"@);
    assert(piece@ == lys_word(*word, i as int, len as int, is_bg));
    push_str(out, piece.as_str());
}

/// The text of an optional string.
fn opt_str(o: &Option<String>) -> (r: Option<&str>)
    ensures
        match r {
            Some(s) => opt_text(*o) == Some(s@),
            None => opt_text(*o) is None,
        },
{
    match o {
        Some(s) => Some(s.as_str()),
        None => None,
    }
}

impl LysGenerator {
    /// A writer.
    pub fn new() -> (r: Self) {
        LysGenerator {}
    }

    /// The LYS text of the lyrics: the lines of `lys_lines`, one per line.
    pub fn generate(&self, ir: &TTMLResult) -> (r: String)
        ensures
            r@ == join_with(lys_lines(ir.lines@), "\n"@),
    {
        let mut output_lines: Vec<String> = Vec::new();
        let mut i: usize = 0;
        while i < ir.lines.len()
            invariant
                i <= ir.lines@.len(),
                texts(output_lines@) == lys_lines(ir.lines@.take(i as int)),
            decreases ir.lines@.len() - i,
        {
            let line = &ir.lines[i];
            let ghost before = texts(output_lines@);
            assert(ir.lines@.take(i + 1).drop_last() =~= ir.lines@.take(i as int));
            let main_line_str = self.format_line(
                line.start_time,
                line.end_time,
                line.text.as_str(),
                nonempty(&line.words),
                false,
                opt_str(&line.agent_id),
            );
            output_lines.push(main_line_str);
            match &line.background_vocal {
                Some(bg_line) => {
                    let bg_line_str = self.format_line(
                        bg_line.start_time,
                        bg_line.end_time,
                        bg_line.text.as_str(),
                        nonempty(&bg_line.words),
                        true,
                        opt_str(&line.agent_id),
                    );
                    output_lines.push(bg_line_str);
                },
                None => {},
            }
            assert(texts(output_lines@) =~= lys_lines(ir.lines@.take(i + 1)));
            i = i + 1;
        }
        assert(ir.lines@.take(ir.lines@.len() as int) =~= ir.lines@);
        join_strings(&output_lines, "\n")
    }

    /// One LYS line (see `lys_line`); an empty word list counts as no words.
    pub fn format_line(
        &self,
        start_time: u32,
        end_time: u32,
        text: &str,
        words: Option<&Vec<Syllable>>,
        is_bg: bool,
        agent_id: Option<&str>,
    ) -> (r: String)
        ensures
            r@ == lys_line(
                start_time,
                end_time,
                text@,
                match words {
                    Some(w) => if w@.len() > 0 {
                        Some(w@)
                    } else {
                        None
                    },
                    None => None,
                },
                is_bg,
                match agent_id {
                    Some(a) => Some(a@),
                    None => None,
                },
            ),
    {
        let words = match words {
            Some(w) => if w.len() > 0 {
                Some(w)
            } else {
                None
            },
            None => None,
        };
        let is_duet = match agent_id {
            Some(a) => !crate::text::str_eq(a, "v1"),
            None => false,
        };
        let property_id: u64 = if is_bg && is_duet {
            8
        } else if is_bg {
            6
        } else if is_duet {
            2
        } else {
            0
        };
        let mut out = String::new();
        push_char(&mut out, '[');
        push_decimal(&mut out, property_id);
        push_char(&mut out, ']');
        let ghost head = out@;
        assert(head =~= "["@ + decimal(lys_property(is_bg, match agent_id {
            Some(a) => Some(a@),
            None => None,
        })) + "]"@) by {
            reveal_strlit("[");
            reveal_strlit("]");
        }
        match words {
            Some(w) => {
                let len = w.len();
                let mut i: usize = 0;
                while i < len
                    invariant
                        i <= len,
                        len == w@.len(),
                        out@ == head + lys_words(w@, i as int, is_bg),
                    decreases len - i,
                {
                    push_lys_word(&mut out, &w[i], i, len, is_bg);
                    i = i + 1;
                }
            },
            None => {
                if is_bg {
                    push_char(&mut out, '(');
                }
                push_str(&mut out, text);
                if is_bg {
                    push_char(&mut out, ')');
                }
                push_char(&mut out, '(');
                push_decimal(&mut out, start_time as u64);
                push_char(&mut out, ',');
                push_decimal(&mut out, end_time.saturating_sub(start_time) as u64);
                push_char(&mut out, ')');
                proof {
                    reveal_strlit("(");
                    reveal_strlit(")");
                    reveal_strlit(",");
                }
                assert(out@ =~= head + ((if is_bg { "("@ + text@ + ")"@ } else { text@ }) + "("@ + decimal(
                    start_time as nat,
                ) + ","@ + decimal(sat_sub(end_time, start_time)) + ")"@));
            },
        }
        out
    }
}

} // verus!
