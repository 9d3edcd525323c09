//! Automatic splitting of a text into syllable-like tokens: runs of Latin
//! letters (hyphenated into syllables by an English dictionary), runs of
//! digits, runs of whitespace, and every other grapheme on its own.

use vstd::prelude::*;

use hyphenation::{Hyphenator, Language, Load, Standard};
use unicode_segmentation::UnicodeSegmentation;

use crate::text::{is_whitespace, is_ws, push_str, texts};

verus! {

/// The classes of characters that decide where tokens break.
#[derive(Debug, Clone, Copy, PartialEq, Eq, Structural)]
pub enum CharType {
    /// CJK ideographs, kana and Hangul syllables.
    Cjk,
    /// ASCII letters.
    Latin,
    /// ASCII digits.
    Numeric,
    /// Unicode whitespace.
    Whitespace,
    /// Anything else.
    Other,
}

/// The class of a character.
pub open spec fn char_type(c: char) -> CharType {
    if is_ws(c) {
        CharType::Whitespace
    } else if ('a' <= c && c <= 'z') || ('A' <= c && c <= 'Z') {
        CharType::Latin
    } else if '0' <= c && c <= '9' {
        CharType::Numeric
    } else if ('\u{4E00}' <= c && c <= '\u{9FFF}') || ('\u{3040}' <= c && c <= '\u{309F}') || ('\u{30A0}' <= c
        && c <= '\u{30FF}') || ('\u{AC00}' <= c && c <= '\u{D7AF}') {
        CharType::Cjk
    } else {
        CharType::Other
    }
}

/// The class of a character (see `char_type`).
pub fn get_char_type(c: char) -> (r: CharType)
    ensures
        r == char_type(c),
{
    if is_whitespace(c) {
        CharType::Whitespace
    } else if ('a' <= c && c <= 'z') || ('A' <= c && c <= 'Z') {
        CharType::Latin
    } else if '0' <= c && c <= '9' {
        CharType::Numeric
    } else if ('\u{4E00}' <= c && c <= '\u{9FFF}') || ('\u{3040}' <= c && c <= '\u{309F}') || ('\u{30A0}' <= c
        && c <= '\u{30FF}') || ('\u{AC00}' <= c && c <= '\u{D7AF}') {
        CharType::Cjk
    } else {
        CharType::Other
    }
}

/// The parts written one after the other.
pub open spec fn concat(parts: Seq<Seq<char>>) -> Seq<char>
    decreases parts.len(),
{
    if parts.len() == 0 {
        Seq::empty()
    } else {
        concat(parts.drop_last()) + parts.last()
    }
}

/// The extended grapheme clusters of a text, in order, as
/// `unicode_segmentation`'s `graphemes(true)` yields them.
pub uninterp spec fn grapheme_clusters(s: Seq<char>) -> Seq<Seq<char>>;

/// `UnicodeSegmentation::graphemes(s, true)`: the extended grapheme
/// clusters of `s`. Claimed: they are named by `grapheme_clusters`, and,
/// being consecutive slices of `s` from its start to its end, each up to
/// the next boundary after its start, they concatenate to `s` and none is
/// empty.
#[verifier::external_body]
fn graphemes_of(s: &str) -> (r: Vec<String>)
    ensures
        texts(r@) == grapheme_clusters(s@),
        concat(texts(r@)) == s@,
        forall|i: int| 0 <= i < r@.len() ==> (#[trigger] texts(r@)[i]).len() > 0,
{
    s.graphemes(true).map(String::from).collect()
}

/// The syllables of a word by the embedded US English hyphenation
/// dictionary, or nothing when the dictionary cannot be loaded.
pub uninterp spec fn english_hyphenation(word: Seq<char>) -> Option<Seq<Seq<char>>>;

/// `Standard::from_embedded(Language::EnglishUS)`, then `hyphenate(word)`
/// and its `segments()`. Claimed: the result is named by
/// `english_hyphenation` (the dictionary is the one embedded in the
/// crate), and the segments, consecutive slices of `word` between its
/// breaks, concatenate to `word`.
/// The word is asked of ASCII letters alone: the crate finds the breaks in
/// the lowercased word and cuts the word itself at them, so a letter whose
/// lowercase is shorter would put a cut inside a character.
#[verifier::external_body]
fn hyphenate_english(word: &str) -> (r: Option<Vec<String>>)
    requires
        ascii_letters(word@),
    ensures
        match r {
            Some(v) => english_hyphenation(word@) == Some(texts(v@)) && concat(texts(v@)) == word@,
            None => english_hyphenation(word@) is None,
        },
{
    match Standard::from_embedded(Language::EnglishUS) {
        Ok(dictionary) => Some(dictionary.hyphenate(word).into_iter().segments().map(String::from).collect()),
        Err(_) => None,
    }
}

/// The first character of a grapheme (a space for an empty one).
pub open spec fn first_char(g: Seq<char>) -> char {
    if g.len() > 0 {
        g[0]
    } else {
        ' '
    }
}

/// Whether two neighbouring classes belong to different tokens.
pub open spec fn breaks_between(last: CharType, current: CharType) -> bool {
    !((last == CharType::Latin && current == CharType::Latin) || (last == CharType::Numeric && current
        == CharType::Numeric) || (last == CharType::Whitespace && current == CharType::Whitespace))
}

/// Whether a text is made of ASCII letters alone.
pub open spec fn ascii_letters(s: Seq<char>) -> bool {
    forall|i: int| 0 <= i < s.len() ==> (('a' <= #[trigger] s[i] && s[i] <= 'z') || ('A' <= s[i] && s[i] <= 'Z'))
}

/// Whether a text is made of ASCII letters alone (see `ascii_letters`).
fn is_ascii_letters(s: &str) -> (r: bool)
    ensures
        r == ascii_letters(s@),
{
    let v = crate::text::chars_of(s);
    let mut i: usize = 0;
    while i < v.len()
        invariant
            i <= v@.len(),
            v@ == s@,
            forall|k: int| 0 <= k < i ==> (('a' <= #[trigger] v@[k] && v@[k] <= 'z') || ('A' <= v@[k] && v@[k] <= 'Z')),
        decreases v@.len() - i,
    {
        let c = v[i];
        if !(('a' <= c && c <= 'z') || ('A' <= c && c <= 'Z')) {
            return false;
        }
        i = i + 1;
    }
    true
}

/// The tokens of a finished run: a Latin word of more than one letter, all
/// of them ASCII, is split into its syllables when the dictionary is
/// available.
pub open spec fn flush(last: CharType, token: Seq<char>) -> Seq<Seq<char>> {
    if last == CharType::Latin && token.len() > 1 && ascii_letters(token) && english_hyphenation(token) is Some {
        english_hyphenation(token).unwrap()
    } else {
        seq![token]
    }
}

/// The tokenizer's state after the first graphemes: finished tokens, the
/// current run, and the class of the last grapheme.
pub struct TokenizerState {
    pub tokens: Seq<Seq<char>>,
    pub current: Seq<char>,
    pub last: Option<CharType>,
}

/// The state after the graphemes `gs`.
pub open spec fn tokenizer_state(gs: Seq<Seq<char>>) -> TokenizerState
    decreases gs.len(),
{
    if gs.len() == 0 {
        TokenizerState { tokens: Seq::empty(), current: Seq::empty(), last: None }
    } else {
        let st = tokenizer_state(gs.drop_last());
        let g = gs.last();
        let ct = char_type(first_char(g));
        if st.last is Some && breaks_between(st.last.unwrap(), ct) && st.current.len() > 0 {
            TokenizerState { tokens: st.tokens + flush(st.last.unwrap(), st.current), current: g, last: Some(ct) }
        } else {
            TokenizerState { tokens: st.tokens, current: st.current + g, last: Some(ct) }
        }
    }
}

/// The tokens of a text: the finished tokens, then the last run.
pub open spec fn tokens_of(text: Seq<char>) -> Seq<Seq<char>> {
    if text.len() == 0 {
        Seq::empty()
    } else {
        let st = tokenizer_state(grapheme_clusters(text));
        if st.current.len() > 0 {
            st.tokens + flush(st.last.unwrap(), st.current)
        } else {
            st.tokens
        }
    }
}

/// `concat` distributes over `+`.
pub proof fn lemma_concat_append(a: Seq<Seq<char>>, b: Seq<Seq<char>>)
    ensures
        concat(a + b) == concat(a) + concat(b),
    decreases b.len(),
{
    if b.len() == 0 {
        assert(a + b =~= a);
    } else {
        lemma_concat_append(a, b.drop_last());
        assert((a + b).drop_last() =~= a + b.drop_last());
    }
}

/// Parts that are the texts `xs` with `open` before the first and `close`
/// after the last concatenate to `open`, the texts, then `close`.
pub proof fn lemma_concat_enclosed(parts: Seq<Seq<char>>, xs: Seq<Seq<char>>, open: Seq<char>, close: Seq<char>)
    requires
        parts.len() == xs.len(),
        parts.len() >= 1,
        forall|i: int|
            0 <= i < parts.len() ==> #[trigger] parts[i] == (if i == 0 { open } else { Seq::empty() }) + xs[i] + (
            if i == parts.len() - 1 {
                close
            } else {
                Seq::empty()
            }),
    ensures
        concat(parts) == open + concat(xs) + close,
{
    let n = parts.len() as int;
    lemma_concat_enclosed_prefix(parts, xs, open, close, n - 1);
    assert(parts.take(n) =~= parts);
    assert(xs.take(n) =~= xs);
    assert(parts.take(n).drop_last() =~= parts.take(n - 1));
    assert(xs.take(n).drop_last() =~= xs.take(n - 1));
    assert(parts[n - 1] == (if n - 1 == 0 { open } else { Seq::empty() }) + xs[n - 1] + close);
}

/// The first `k` (fewer than all) of such parts concatenate to `open` and
/// their texts.
proof fn lemma_concat_enclosed_prefix(
    parts: Seq<Seq<char>>,
    xs: Seq<Seq<char>>,
    open: Seq<char>,
    close: Seq<char>,
    k: int,
)
    requires
        parts.len() == xs.len(),
        0 <= k < parts.len(),
        forall|i: int|
            0 <= i < parts.len() ==> #[trigger] parts[i] == (if i == 0 { open } else { Seq::empty() }) + xs[i] + (
            if i == parts.len() - 1 {
                close
            } else {
                Seq::empty()
            }),
    ensures
        concat(parts.take(k)) == (if k > 0 { open } else { Seq::empty() }) + concat(xs.take(k)),
    decreases k,
{
    if k == 0 {
        assert(parts.take(0) =~= Seq::<Seq<char>>::empty());
        assert(xs.take(0) =~= Seq::<Seq<char>>::empty());
        assert(Seq::<char>::empty() + concat(xs.take(0)) =~= concat(xs.take(0)));
    } else {
        lemma_concat_enclosed_prefix(parts, xs, open, close, k - 1);
        assert(parts.take(k).drop_last() =~= parts.take(k - 1));
        assert(parts.take(k).last() == parts[k - 1]);
        assert(xs.take(k).drop_last() =~= xs.take(k - 1));
        assert(xs.take(k).last() == xs[k - 1]);
        let p = parts[k - 1];
        assert(p == (if k - 1 == 0 { open } else { Seq::empty() }) + xs[k - 1] + Seq::<char>::empty());
        if k == 1 {
            assert(concat(parts.take(k)) =~= open + concat(xs.take(k)));
        } else {
            assert(concat(parts.take(k)) =~= open + concat(xs.take(k)));
        }
    }
}

/// A single part concatenates to itself.
pub proof fn lemma_concat_single(t: Seq<char>)
    ensures
        concat(seq![t]) == t,
{
    assert(seq![t].drop_last() =~= Seq::<Seq<char>>::empty());
    assert(seq![t].last() == t);
    assert(concat(Seq::<Seq<char>>::empty()) + t =~= t);
}

/// Whether a text is one of the syllables that the dictionary gives some
/// word.
pub open spec fn hyphenation_piece(t: Seq<char>) -> bool {
    exists|w: Seq<char>| #[trigger] english_hyphenation(w) matches Some(ps) && ps.contains(t)
}

/// Whether every token holds text, but for syllables the dictionary gives.
pub open spec fn tokens_hold_text(ts: Seq<Seq<char>>) -> bool {
    forall|i: int| 0 <= i < ts.len() ==> (#[trigger] ts[i]).len() > 0 || hyphenation_piece(ts[i])
}

/// Runs of graphemes, as ranges `(start, end, class)` of `gs` laid end to
/// end from `0` to `upto`: none empty, every grapheme of a run of its
/// class, and a run of CJK or other graphemes one grapheme long.
pub open spec fn runs_upto(gs: Seq<Seq<char>>, runs: Seq<(int, int, CharType)>, upto: int) -> bool {
    &&& runs.len() == 0 ==> upto == 0
    &&& runs.len() > 0 ==> runs[0].0 == 0 && runs.last().1 == upto
    &&& forall|i: int| 0 < i < runs.len() ==> (#[trigger] runs[i]).0 == runs[i - 1].1
    &&& forall|i: int| 0 <= i < runs.len() ==> (#[trigger] runs[i]).0 < runs[i].1
    &&& forall|i: int, k: int|
        0 <= i < runs.len() && runs[i].0 <= k < runs[i].1 ==> char_type(first_char(#[trigger] gs[k])) == (
        #[trigger] runs[i]).2
    &&& forall|i: int| 0 <= i < runs.len() && single_grapheme_class((#[trigger] runs[i]).2) ==> runs[i].1 == runs[i].0 + 1
}

/// The tokens of runs of graphemes: each run's text, split into its
/// dictionary syllables when it is a Latin word (see `flush`).
pub open spec fn run_tokens(gs: Seq<Seq<char>>, runs: Seq<(int, int, CharType)>) -> Seq<Seq<char>>
    decreases runs.len(),
{
    if runs.len() == 0 {
        Seq::empty()
    } else {
        run_tokens(gs, runs.drop_last()) + flush(runs.last().2, concat(gs.subrange(runs.last().0, runs.last().1)))
    }
}

/// Whether a class makes a token of one grapheme (CJK and anything else
/// that is not a letter, a digit or whitespace).
pub open spec fn single_grapheme_class(c: CharType) -> bool {
    c == CharType::Cjk || c == CharType::Other
}

/// Whether a token of the text is of a single-grapheme class only when it
/// is one grapheme of the text.
pub open spec fn tokens_well_classed(ts: Seq<Seq<char>>, gs: Seq<Seq<char>>) -> bool {
    forall|i: int| 0 <= i < ts.len() && single_grapheme_class(char_type(first_char(#[trigger] ts[i]))) ==> gs.contains(ts[i])
}

/// The parts of a text of ASCII letters are made of ASCII letters.
proof fn lemma_concat_ascii(parts: Seq<Seq<char>>, i: int)
    requires
        ascii_letters(concat(parts)),
        0 <= i < parts.len(),
    ensures
        ascii_letters(parts[i]),
    decreases parts.len(),
{
    let a = concat(parts.drop_last());
    let b = parts.last();
    assert(concat(parts) == a + b);
    if i < parts.len() - 1 {
        assert forall|k: int| 0 <= k < a.len() implies (('a' <= #[trigger] a[k] && a[k] <= 'z') || ('A' <= a[k] && a[k] <= 'Z')) by {
            assert((a + b)[k] == a[k]);
        }
        lemma_concat_ascii(parts.drop_last(), i);
        assert(parts.drop_last()[i] == parts[i]);
    } else {
        assert forall|k: int| 0 <= k < b.len() implies (('a' <= #[trigger] b[k] && b[k] <= 'z') || ('A' <= b[k] && b[k] <= 'Z')) by {
            assert((a + b)[a.len() + k] == b[k]);
        }
    }
}

/// Appends the tokens of a finished run (see `flush`).
fn push_run(tokens: &mut Vec<String>, last: CharType, token: String)
    requires
        token@.len() > 0,
        char_type(first_char(token@)) == last,
    ensures
        texts(final(tokens)@) == texts(old(tokens)@) + flush(last, token@),
        tokens_hold_text(flush(last, token@)),
        concat(flush(last, token@)) == token@,
        forall|k: int| 0 <= k < flush(last, token@).len() && single_grapheme_class(
            char_type(first_char(#[trigger] flush(last, token@)[k])),
        ) ==> single_grapheme_class(last) && flush(last, token@)[k] == token@,
{
    let ghost before = texts(tokens@);
    if last == CharType::Latin && token.unicode_len() > 1 && is_ascii_letters(token.as_str()) {
        match hyphenate_english(token.as_str()) {
            Some(segments) => {
                let mut i: usize = 0;
                while i < segments.len()
                    invariant
                        i <= segments@.len(),
                        texts(tokens@) == before + texts(segments@).take(i as int),
                    decreases segments@.len() - i,
                {
                    let ghost prev = texts(tokens@);
                    let piece = crate::text::to_owned_string(segments[i].as_str());
                    tokens.push(piece);
                    assert(texts(tokens@) =~= prev.push(segments@[i as int]@));
                    assert(texts(segments@).take(i + 1) =~= texts(segments@).take(i as int).push(segments@[i as int]@));
                    assert(texts(tokens@) =~= before + texts(segments@).take(i + 1));
                    i = i + 1;
                }
                assert(texts(segments@).take(segments@.len() as int) =~= texts(segments@));
                proof {
                    let ps = texts(segments@);
                    assert forall|k: int| 0 <= k < ps.len() implies (#[trigger] ps[k]).len() > 0 || hyphenation_piece(
                        ps[k],
                    ) by {
                        assert(english_hyphenation(token@) matches Some(qs) && qs.contains(ps[k]));
                    }
                    assert forall|k: int| 0 <= k < ps.len() implies !single_grapheme_class(
                        char_type(first_char(#[trigger] ps[k])),
                    ) by {
                        lemma_concat_ascii(ps, k);
                        if ps[k].len() > 0 {
                            assert(('a' <= ps[k][0] && ps[k][0] <= 'z') || ('A' <= ps[k][0] && ps[k][0] <= 'Z'));
                        }
                    }
                }
                return;
            },
            None => {},
        }
    }
    let ghost t = token@;
    tokens.push(token);
    assert(texts(tokens@) =~= before + seq![t]);
    proof {
        lemma_concat_single(t);
    }
}

/// Appending one more part to a range of parts appends its text.
proof fn lemma_concat_subrange_push(gs: Seq<Seq<char>>, a: int, b: int)
    requires
        0 <= a <= b < gs.len(),
    ensures
        concat(gs.subrange(a, b + 1)) == concat(gs.subrange(a, b)) + gs[b],
{
    assert(gs.subrange(a, b + 1).drop_last() =~= gs.subrange(a, b));
    assert(gs.subrange(a, b + 1).last() == gs[b]);
}

/// Closing the run of graphemes `rs..i`, all of class `c`, adds it to the
/// runs and its tokens to theirs.
proof fn lemma_run_close(gs: Seq<Seq<char>>, runs: Seq<(int, int, CharType)>, rs: int, i: int, c: CharType)
    requires
        runs_upto(gs, runs, rs),
        0 <= rs < i <= gs.len(),
        forall|k: int| rs <= k < i ==> char_type(first_char(#[trigger] gs[k])) == c,
        single_grapheme_class(c) ==> i == rs + 1,
    ensures
        runs_upto(gs, runs.push((rs, i, c)), i),
        run_tokens(gs, runs.push((rs, i, c))) == run_tokens(gs, runs) + flush(c, concat(gs.subrange(rs, i))),
{
    let nr = runs.push((rs, i, c));
    assert(nr.drop_last() =~= runs);
    assert forall|j: int| 0 < j < nr.len() implies (#[trigger] nr[j]).0 == nr[j - 1].1 by {
        if j < runs.len() {
            assert(nr[j] == runs[j] && nr[j - 1] == runs[j - 1]);
        } else {
            assert(nr[j - 1] == runs.last());
        }
    }
    assert forall|j: int, k: int|
        0 <= j < nr.len() && nr[j].0 <= k < nr[j].1 implies char_type(first_char(#[trigger] gs[k])) == (
        #[trigger] nr[j]).2 by {
        if j < runs.len() {
            assert(nr[j] == runs[j]);
        }
    }
    assert forall|j: int| 0 <= j < nr.len() && single_grapheme_class((#[trigger] nr[j]).2) implies nr[j].1 == nr[j].0
        + 1 by {
        if j < runs.len() {
            assert(nr[j] == runs[j]);
        }
    }
    assert forall|j: int| 0 <= j < nr.len() implies (#[trigger] nr[j]).0 < nr[j].1 by {
        if j < runs.len() {
            assert(nr[j] == runs[j]);
        }
    }
}

/// Splits a text into tokens (see `tokens_of`): a new token starts between
/// graphemes of different classes, and after every grapheme that is not a
/// Latin letter, a digit or whitespace; a Latin word of more than one
/// letter, all of them ASCII, is split into syllables. The tokens
/// concatenate to the text, a token of CJK or other characters is one
/// grapheme of the text, every token but a dictionary syllable holds text,
/// and there is no token exactly when the text is empty. Put otherwise, the
/// graphemes of the text fall into runs laid end to end, all graphemes of a
/// run of one class, and the tokens are those of the runs in order (see
/// `runs_upto` and `run_tokens`).
pub fn auto_tokenize(text: &str) -> (r: Vec<String>)
    ensures
        texts(r@) == tokens_of(text@),
        concat(texts(r@)) == text@,
        tokens_well_classed(texts(r@), grapheme_clusters(text@)),
        tokens_hold_text(texts(r@)),
        r@.len() == 0 <==> text@.len() == 0,
        text@.len() > 0 ==> exists|runs: Seq<(int, int, CharType)>|
            runs_upto(grapheme_clusters(text@), runs, grapheme_clusters(text@).len() as int) && texts(r@)
                == run_tokens(grapheme_clusters(text@), runs),
{
    if crate::text::text_is_empty(text) {
        let r: Vec<String> = Vec::new();
        assert(texts(r@) =~= Seq::<Seq<char>>::empty());
        return r;
    }
    let graphemes = graphemes_of(text);
    let ghost gs = texts(graphemes@);
    let mut tokens: Vec<String> = Vec::new();
    let mut current_token = String::new();
    let mut last_char_type: Option<CharType> = None;
    let mut i: usize = 0;
    let ghost mut runs: Seq<(int, int, CharType)> = Seq::empty();
    let ghost mut rs: int = 0;
    while i < graphemes.len()
        invariant
            i <= graphemes@.len(),
            gs == texts(graphemes@),
            forall|k: int| 0 <= k < gs.len() ==> (#[trigger] gs[k]).len() > 0,
            runs_upto(gs, runs, rs),
            texts(tokens@) == run_tokens(gs, runs),
            0 <= rs <= i,
            current_token@ == concat(gs.subrange(rs, i as int)),
            i == 0 ==> rs == 0 && last_char_type is None,
            i > 0 ==> rs < i && last_char_type is Some && current_token@.len() > 0,
            forall|k: int| rs <= k < i ==> char_type(first_char(#[trigger] gs[k])) == last_char_type.unwrap(),
            last_char_type matches Some(c) && single_grapheme_class(c) ==> i == rs + 1,
            texts(tokens@) == tokenizer_state(gs.take(i as int)).tokens,
            current_token@ == tokenizer_state(gs.take(i as int)).current,
            last_char_type == tokenizer_state(gs.take(i as int)).last,
            concat(texts(tokens@)) + current_token@ == concat(gs.take(i as int)),
            last_char_type is None ==> current_token@.len() == 0,
            gs == grapheme_clusters(text@),
            tokens_well_classed(texts(tokens@), gs),
            tokens_hold_text(texts(tokens@)),
            current_token@.len() > 0 ==> last_char_type == Some(char_type(first_char(current_token@))),
            last_char_type matches Some(c) && single_grapheme_class(c) ==> i > 0 && current_token@ == gs[i - 1],
        decreases graphemes@.len() - i,
    {
        let grapheme = graphemes[i].as_str();
        assert(gs.take(i + 1).drop_last() =~= gs.take(i as int));
        assert(gs.take(i + 1).last() == grapheme@);
        let first = if crate::text::text_is_empty(grapheme) {
            ' '
        } else {
            grapheme.get_char(0)
        };
        let current_char_type = get_char_type(first);
        let ghost before_tokens = texts(tokens@);
        let ghost before_current = current_token@;
        match last_char_type {
            Some(last_type) => {
                let should_break = !((last_type == CharType::Latin && current_char_type == CharType::Latin) || (
                last_type == CharType::Numeric && current_char_type == CharType::Numeric) || (last_type
                    == CharType::Whitespace && current_char_type == CharType::Whitespace));
                if should_break && !crate::text::text_is_empty(current_token.as_str()) {
                    let finished = current_token;
                    current_token = String::new();
                    push_run(&mut tokens, last_type, finished);
                    proof {
                        lemma_run_close(gs, runs, rs, i as int, last_type);
                        runs = runs.push((rs, i as int, last_type));
                        rs = i as int;
                        assert(gs.subrange(rs, i as int) =~= Seq::<Seq<char>>::empty());
                        lemma_concat_append(before_tokens, flush(last_type, before_current));
                        let fl = flush(last_type, before_current);
                        assert forall|k: int| 0 <= k < texts(tokens@).len() && single_grapheme_class(
                            char_type(first_char(#[trigger] texts(tokens@)[k])),
                        ) implies gs.contains(texts(tokens@)[k]) by {
                            if k < before_tokens.len() {
                                assert(texts(tokens@)[k] == before_tokens[k]);
                            } else {
                                assert(texts(tokens@)[k] == fl[k - before_tokens.len()]);
                                assert(gs[i - 1] == before_current);
                            }
                        }
                    }
                }
            },
            None => {},
        }
        let ghost mid = current_token@;
        push_str(&mut current_token, grapheme);
        last_char_type = Some(current_char_type);
        proof {
            assert(gs[i as int] == grapheme@);
            if mid.len() > 0 {
                assert(current_token@[0] == mid[0]);
            } else {
                assert(current_token@ =~= grapheme@);
            }
        }
        proof {
            lemma_concat_subrange_push(gs, rs, i as int);
            lemma_concat_append(gs.take(i as int), seq![grapheme@]);
            assert(gs.take(i + 1) =~= gs.take(i as int) + seq![grapheme@]);
            lemma_concat_single(grapheme@);
            assert(concat(texts(tokens@)) + current_token@ =~= concat(gs.take(i + 1)));
        }
        i = i + 1;
    }
    assert(gs.take(gs.len() as int) =~= gs);
    let ghost before_tokens = texts(tokens@);
    let ghost cur = current_token@;
    if !crate::text::text_is_empty(current_token.as_str()) {
        let lt = match last_char_type {
            Some(t) => t,
            None => CharType::Other,
        };
        push_run(&mut tokens, lt, current_token);
        proof {
            lemma_run_close(gs, runs, rs, gs.len() as int, lt);
            runs = runs.push((rs, gs.len() as int, lt));
            lemma_concat_append(before_tokens, flush(lt, cur));
            let fl = flush(lt, cur);
            assert forall|k: int| 0 <= k < texts(tokens@).len() && single_grapheme_class(
                char_type(first_char(#[trigger] texts(tokens@)[k])),
            ) implies gs.contains(texts(tokens@)[k]) by {
                if k < before_tokens.len() {
                    assert(texts(tokens@)[k] == before_tokens[k]);
                } else {
                    assert(texts(tokens@)[k] == fl[k - before_tokens.len()]);
                    assert(gs[gs.len() - 1] == cur);
                }
            }
        }
    } else {
        assert(concat(texts(tokens@)) =~= concat(texts(tokens@)) + cur);
    }
    assert(runs_upto(gs, runs, gs.len() as int) && texts(tokens@) == run_tokens(gs, runs));
    tokens
}

} // verus!
