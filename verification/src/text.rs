//! Character-level text utilities: whitespace, trimming, normalisation and
//! decimal rendering of numbers.

use vstd::prelude::*;

verus! {

/// The Unicode `White_Space` property, exactly as `char::is_whitespace` decides it.
pub open spec fn is_ws(c: char) -> bool {
    ||| ('\u{9}' <= c && c <= '\u{d}')
    ||| c == ' '
    ||| c == '\u{85}'
    ||| c == '\u{a0}'
    ||| c == '\u{1680}'
    ||| ('\u{2000}' <= c && c <= '\u{200a}')
    ||| c == '\u{2028}'
    ||| c == '\u{2029}'
    ||| c == '\u{202f}'
    ||| c == '\u{205f}'
    ||| c == '\u{3000}'
}

/// Executable whitespace test, agreeing with `char::is_whitespace`.
pub fn is_whitespace(c: char) -> (r: bool)
    ensures
        r == is_ws(c),
{
    ('\u{9}' <= c && c <= '\u{d}') || c == ' ' || c == '\u{85}' || c == '\u{a0}' || c == '\u{1680}'
        || ('\u{2000}' <= c && c <= '\u{200a}') || c == '\u{2028}' || c == '\u{2029}' || c
        == '\u{202f}' || c == '\u{205f}' || c == '\u{3000}'
}

/// The classes of characters that are stripped from the ends of a text.
#[derive(Clone, Copy, PartialEq, Eq, Structural)]
pub enum CharClass {
    /// Unicode whitespace.
    Whitespace,
    /// An opening parenthesis, ASCII `(` or full-width `（`.
    OpenParen,
    /// A closing parenthesis, ASCII `)` or full-width `）`.
    CloseParen,
}

/// Whether `c` belongs to the class `k`.
pub open spec fn in_class(k: CharClass, c: char) -> bool {
    match k {
        CharClass::Whitespace => is_ws(c),
        CharClass::OpenParen => c == '(' || c == '（',
        CharClass::CloseParen => c == ')' || c == '）',
    }
}

/// Executable class test.
pub fn class_contains(k: CharClass, c: char) -> (r: bool)
    ensures
        r == in_class(k, c),
{
    match k {
        CharClass::Whitespace => is_whitespace(c),
        CharClass::OpenParen => c == '(' || c == '（',
        CharClass::CloseParen => c == ')' || c == '）',
    }
}

/// `s` without its longest prefix made of characters of class `k`.
pub open spec fn strip_start(s: Seq<char>, k: CharClass) -> Seq<char>
    decreases s.len(),
{
    if s.len() > 0 && in_class(k, s[0]) {
        strip_start(s.drop_first(), k)
    } else {
        s
    }
}

/// `s` without its longest suffix made of characters of class `k`.
pub open spec fn strip_end(s: Seq<char>, k: CharClass) -> Seq<char>
    decreases s.len(),
{
    if s.len() > 0 && in_class(k, s.last()) {
        strip_end(s.drop_last(), k)
    } else {
        s
    }
}

/// `s` with leading and trailing whitespace removed, as `str::trim` does.
pub open spec fn trim(s: Seq<char>) -> Seq<char> {
    strip_end(strip_start(s, CharClass::Whitespace), CharClass::Whitespace)
}

/// `s` with trailing whitespace removed, as `str::trim_end` does.
pub open spec fn trim_end(s: Seq<char>) -> Seq<char> {
    strip_end(s, CharClass::Whitespace)
}

/// Every character of `s` is whitespace.
pub open spec fn all_ws(s: Seq<char>) -> bool {
    forall|i: int| 0 <= i < s.len() ==> is_ws(#[trigger] s[i])
}

/// Whitespace normalisation, as `split_whitespace` followed by `join(" ")`:
/// the words of `s` (maximal runs of non-whitespace characters), separated by
/// exactly one ASCII space, with nothing before the first or after the last.
pub open spec fn normalize_ws(s: Seq<char>) -> Seq<char>
    decreases s.len(),
{
    if s.len() == 0 {
        s
    } else {
        let prev = normalize_ws(s.drop_last());
        let c = s.last();
        if is_ws(c) {
            prev
        } else if s.len() > 1 && !is_ws(s[s.len() - 2]) {
            prev.push(c)
        } else if prev.len() == 0 {
            seq![c]
        } else {
            prev.push(' ').push(c)
        }
    }
}

/// Text of a background vocal with its decorations removed: trimmed, then
/// stripped of leading opening and trailing closing parentheses (ASCII or
/// full-width), then trimmed again.
pub open spec fn clean_parens(s: Seq<char>) -> Seq<char> {
    trim(strip_end(strip_start(trim(s), CharClass::OpenParen), CharClass::CloseParen))
}

/// Removing one leading character of class `k` does not change the stripped result.
pub proof fn lemma_strip_start_step(s: Seq<char>, lo: int, hi: int, k: CharClass)
    requires
        0 <= lo < hi <= s.len(),
        in_class(k, s[lo]),
    ensures
        strip_start(s.subrange(lo, hi), k) == strip_start(s.subrange(lo + 1, hi), k),
{
    assert(s.subrange(lo, hi).drop_first() =~= s.subrange(lo + 1, hi));
}

/// Removing one trailing character of class `k` does not change the stripped result.
pub proof fn lemma_strip_end_step(s: Seq<char>, lo: int, hi: int, k: CharClass)
    requires
        0 <= lo < hi <= s.len(),
        in_class(k, s[hi - 1]),
    ensures
        strip_end(s.subrange(lo, hi), k) == strip_end(s.subrange(lo, hi - 1), k),
{
    assert(s.subrange(lo, hi).drop_last() =~= s.subrange(lo, hi - 1));
}

/// The first index in `lo..hi` at which `v` has a character outside class `k`
/// (or `hi`): `strip_start` of the range is the range from that index.
pub fn skip_class_front(v: &Vec<char>, lo: usize, hi: usize, k: CharClass) -> (r: usize)
    requires
        lo <= hi <= v.len(),
    ensures
        lo <= r <= hi,
        strip_start(v@.subrange(lo as int, hi as int), k) == v@.subrange(r as int, hi as int),
{
    let mut i = lo;
    while i < hi && class_contains(k, v[i])
        invariant
            lo <= i <= hi <= v.len(),
            strip_start(v@.subrange(lo as int, hi as int), k) == strip_start(
                v@.subrange(i as int, hi as int),
                k,
            ),
        decreases hi - i,
    {
        proof {
            lemma_strip_start_step(v@, i as int, hi as int, k);
        }
        i = i + 1;
    }
    i
}

/// The end of the range `lo..hi` of `v` once trailing characters of class `k`
/// are removed: `strip_end` of the range is the range up to that index.
pub fn skip_class_back(v: &Vec<char>, lo: usize, hi: usize, k: CharClass) -> (r: usize)
    requires
        lo <= hi <= v.len(),
    ensures
        lo <= r <= hi,
        strip_end(v@.subrange(lo as int, hi as int), k) == v@.subrange(lo as int, r as int),
{
    let mut j = hi;
    while j > lo && class_contains(k, v[j - 1])
        invariant
            lo <= j <= hi <= v.len(),
            strip_end(v@.subrange(lo as int, hi as int), k) == strip_end(
                v@.subrange(lo as int, j as int),
                k,
            ),
        decreases j - lo,
    {
        proof {
            lemma_strip_end_step(v@, lo as int, j as int, k);
        }
        j = j - 1;
    }
    j
}

/// The characters of a string slice, in order.
pub fn chars_of(s: &str) -> (v: Vec<char>)
    ensures
        v@ == s@,
{
    let mut v: Vec<char> = Vec::new();
    for c in it: s.chars()
        invariant
            v@ == it.seq().take(it.index()),
    {
        v.push(c);
    }
    v
}

/// Appends one character to a string (`String::push`).
#[verifier::external_body]
pub(crate) fn push_char(s: &mut String, c: char)
    ensures
        final(s)@ == old(s)@.push(c),
{
    s.push(c);
}

/// A text with its characters escaped as `str::escape_debug` escapes them.
pub uninterp spec fn debug_escaped(s: Seq<char>) -> Seq<char>;

/// Appends `str::escape_debug` of a text to a string. Claimed: what is
/// appended is named by `debug_escaped` (a function of the text alone).
#[verifier::external_body]
pub(crate) fn push_escaped(out: &mut String, s: &str)
    ensures
        final(out)@ == old(out)@ + debug_escaped(s@),
{
    out.push_str(&s.escape_debug().to_string());
}

/// Appends a string slice to a string.
pub fn push_str(s: &mut String, t: &str)
    ensures
        final(s)@ == old(s)@ + t@,
{
    s.append(t);
}

/// The string made of the characters `v[lo..hi]`.
pub fn string_from_range(v: &Vec<char>, lo: usize, hi: usize) -> (s: String)
    requires
        lo <= hi <= v.len(),
    ensures
        s@ == v@.subrange(lo as int, hi as int),
{
    let mut s = String::new();
    let mut i = lo;
    while i < hi
        invariant
            lo <= i <= hi <= v.len(),
            s@ == v@.subrange(lo as int, i as int),
        decreases hi - i,
    {
        push_char(&mut s, v[i]);
        assert(v@.subrange(lo as int, i + 1) =~= v@.subrange(lo as int, i as int).push(v@[i as int]));
        i = i + 1;
    }
    s
}

/// A copy of a string slice as an owned string.
pub fn to_owned_string(t: &str) -> (s: String)
    ensures
        s@ == t@,
{
    String::from_str(t)
}

/// Whether a text is empty.
pub fn text_is_empty(s: &str) -> (r: bool)
    ensures
        r == (s@.len() == 0),
{
    s.unicode_len() == 0
}

/// Whether two string slices hold the same text.
pub fn str_eq(a: &str, b: &str) -> (r: bool)
    ensures
        r == (a@ == b@),
{
    let x = to_owned_string(a);
    let y = to_owned_string(b);
    x == y
}

/// `s` with leading and trailing whitespace removed (`str::trim`).
pub fn trim_string(s: &str) -> (r: String)
    ensures
        r@ == trim(s@),
{
    let v = chars_of(s);
    let lo = skip_class_front(&v, 0, v.len(), CharClass::Whitespace);
    let hi = skip_class_back(&v, lo, v.len(), CharClass::Whitespace);
    assert(v@.subrange(0, v@.len() as int) =~= v@);
    string_from_range(&v, lo, hi)
}

/// `s` with trailing whitespace removed (`str::trim_end`).
pub fn trim_end_string(s: &str) -> (r: String)
    ensures
        r@ == trim_end(s@),
{
    let v = chars_of(s);
    let hi = skip_class_back(&v, 0, v.len(), CharClass::Whitespace);
    assert(v@.subrange(0, v@.len() as int) =~= v@);
    string_from_range(&v, 0, hi)
}

/// Whether the trimmed text is empty, i.e. every character is whitespace.
pub fn is_blank(s: &str) -> (r: bool)
    ensures
        r == (trim(s@).len() == 0),
        r == all_ws(s@),
{
    let v = chars_of(s);
    let mut i: usize = 0;
    while i < v.len()
        invariant
            i <= v.len(),
            v@ == s@,
            forall|j: int| 0 <= j < i ==> is_ws(#[trigger] v@[j]),
        decreases v.len() - i,
    {
        if !is_whitespace(v[i]) {
            proof {
                lemma_trim_nonempty_if_not_all_ws(s@, i as int);
            }
            return false;
        }
        i = i + 1;
    }
    proof {
        lemma_trim_empty_if_all_ws(s@);
    }
    true
}

/// A text with a non-whitespace character has a non-empty trim.
pub proof fn lemma_trim_nonempty_if_not_all_ws(s: Seq<char>, i: int)
    requires
        0 <= i < s.len(),
        !is_ws(s[i]),
    ensures
        trim(s).len() > 0,
{
    lemma_strip_start_keeps(s, i, CharClass::Whitespace);
    let t = strip_start(s, CharClass::Whitespace);
    let j = choose|j: int| 0 <= j < t.len() && t[j] == s[i];
    lemma_strip_end_keeps(t, j, CharClass::Whitespace);
}

/// A text made only of whitespace has an empty trim.
pub proof fn lemma_trim_empty_if_all_ws(s: Seq<char>)
    requires
        all_ws(s),
    ensures
        trim(s).len() == 0,
    decreases s.len(),
{
    if s.len() > 0 {
        assert(all_ws(s.drop_first()));
        lemma_trim_empty_if_all_ws(s.drop_first());
    }
}

/// A character outside class `k` survives `strip_start`.
pub proof fn lemma_strip_start_keeps(s: Seq<char>, i: int, k: CharClass)
    requires
        0 <= i < s.len(),
        !in_class(k, s[i]),
    ensures
        exists|j: int| 0 <= j < strip_start(s, k).len() && strip_start(s, k)[j] == s[i],
    decreases s.len(),
{
    if s.len() > 0 && in_class(k, s[0]) {
        assert(i > 0);
        assert(s.drop_first()[i - 1] == s[i]);
        lemma_strip_start_keeps(s.drop_first(), i - 1, k);
        assert(strip_start(s, k) == strip_start(s.drop_first(), k));
    } else {
        assert(strip_start(s, k) == s);
        assert(strip_start(s, k)[i] == s[i]);
    }
}

/// A character outside class `k` survives `strip_end`.
pub proof fn lemma_strip_end_keeps(s: Seq<char>, i: int, k: CharClass)
    requires
        0 <= i < s.len(),
        !in_class(k, s[i]),
    ensures
        strip_end(s, k).len() > i,
    decreases s.len(),
{
    if s.len() > 0 && in_class(k, s.last()) {
        assert(i < s.len() - 1);
        lemma_strip_end_keeps(s.drop_last(), i, k);
    }
}

/// What `strip_start` leaves starts outside class `k`.
proof fn lemma_strip_start_head(s: Seq<char>, k: CharClass)
    ensures
        strip_start(s, k).len() > 0 ==> !in_class(k, strip_start(s, k)[0]),
    decreases s.len(),
{
    if s.len() > 0 && in_class(k, s[0]) {
        lemma_strip_start_head(s.drop_first(), k);
    }
}

/// What `strip_end` leaves is a prefix of the text, ending outside class `k`.
proof fn lemma_strip_end_prefix(s: Seq<char>, k: CharClass)
    ensures
        strip_end(s, k).len() <= s.len(),
        strip_end(s, k) =~= s.take(strip_end(s, k).len() as int),
        strip_end(s, k).len() > 0 ==> !in_class(k, strip_end(s, k).last()),
    decreases s.len(),
{
    if s.len() > 0 && in_class(k, s.last()) {
        lemma_strip_end_prefix(s.drop_last(), k);
        let r = strip_end(s.drop_last(), k);
        assert(s.drop_last().take(r.len() as int) =~= s.take(r.len() as int));
    } else {
        assert(s.take(s.len() as int) =~= s);
    }
}

/// Trimming twice is trimming once.
pub proof fn lemma_trim_idempotent(s: Seq<char>)
    ensures
        trim(trim(s)) == trim(s),
{
    let k = CharClass::Whitespace;
    let u = strip_start(s, k);
    let t = strip_end(u, k);
    lemma_strip_start_head(s, k);
    lemma_strip_end_prefix(u, k);
    if t.len() > 0 {
        assert(t[0] == u[0]);
        assert(strip_start(t, k) == t);
    } else {
        assert(strip_start(t, k) == t);
    }
    assert(strip_end(t, k) == t);
}

/// Whitespace normalisation of a range of characters, appended to nothing.
pub fn normalize_chars(v: &Vec<char>) -> (out: String)
    ensures
        out@ == normalize_ws(v@),
{
    let mut out = String::new();
    let mut empty = true;
    let mut i: usize = 0;
    while i < v.len()
        invariant
            i <= v.len(),
            out@ == normalize_ws(v@.subrange(0, i as int)),
            empty == (out@.len() == 0),
        decreases v.len() - i,
    {
        let c = v[i];
        let ghost pre = v@.subrange(0, i as int);
        let ghost cur = v@.subrange(0, i + 1);
        assert(cur.drop_last() =~= pre);
        assert(cur.last() == c);
        if i > 0 {
            assert(cur[cur.len() - 2] == v@[i - 1]);
        }
        if is_whitespace(c) {
        } else if i > 0 && !is_whitespace(v[i - 1]) {
            push_char(&mut out, c);
            empty = false;
        } else if empty {
            push_char(&mut out, c);
            assert(out@ =~= seq![c]);
            empty = false;
        } else {
            push_char(&mut out, ' ');
            push_char(&mut out, c);
            empty = false;
        }
        i = i + 1;
    }
    assert(v@.subrange(0, v@.len() as int) =~= v@);
    out
}

/// Text in which every whitespace character is a single ASCII space
/// followed by a character that is not whitespace, and which does not start
/// with whitespace.
pub open spec fn spaced_words(t: Seq<char>) -> bool {
    &&& t.len() == 0 || !is_ws(t[0])
    &&& forall|i: int| 0 <= i < t.len() && is_ws(#[trigger] t[i]) ==> t[i] == ' ' && (i + 1 < t.len() ==> !is_ws(t[i + 1]))
}

/// A normalised text ends with the last character of its input when that
/// one is not whitespace.
proof fn lemma_normalize_ws_last(s: Seq<char>)
    requires
        s.len() > 0,
        !is_ws(s.last()),
    ensures
        normalize_ws(s).len() > 0,
        normalize_ws(s).last() == s.last(),
{
}

/// A normalised text has no whitespace at its ends, and no whitespace but
/// single ASCII spaces between words.
pub proof fn lemma_normalize_ws_shape(s: Seq<char>)
    ensures
        spaced_words(normalize_ws(s)),
        normalize_ws(s).len() == 0 || !is_ws(normalize_ws(s).last()),
    decreases s.len(),
{
    if s.len() > 0 {
        let prev = normalize_ws(s.drop_last());
        lemma_normalize_ws_shape(s.drop_last());
        let c = s.last();
        if is_ws(c) {
        } else if s.len() > 1 && !is_ws(s[s.len() - 2]) {
            lemma_normalize_ws_last(s.drop_last());
            let r = prev.push(c);
            assert forall|i: int| 0 <= i < r.len() && is_ws(#[trigger] r[i]) implies r[i] == ' ' && (i + 1 < r.len()
                ==> !is_ws(r[i + 1])) by {
                assert(r[i] == prev[i]);
                if i + 1 < prev.len() {
                    assert(r[i + 1] == prev[i + 1]);
                }
            }
        } else if prev.len() == 0 {
        } else {
            let r = prev.push(' ').push(c);
            assert forall|i: int| 0 <= i < r.len() && is_ws(#[trigger] r[i]) implies r[i] == ' ' && (i + 1 < r.len()
                ==> !is_ws(r[i + 1])) by {
                if i < prev.len() {
                    assert(r[i] == prev[i]);
                    if i + 1 < prev.len() {
                        assert(r[i + 1] == prev[i + 1]);
                    }
                }
            }
        }
    }
}

/// Normalising a text of spaced words only drops a trailing space.
proof fn lemma_normalize_spaced(t: Seq<char>)
    requires
        spaced_words(t),
    ensures
        normalize_ws(t) == if t.len() > 0 && is_ws(t.last()) {
            t.drop_last()
        } else {
            t
        },
    decreases t.len(),
{
    if t.len() > 0 {
        let tp = t.drop_last();
        assert(spaced_words(tp)) by {
            assert forall|i: int| 0 <= i < tp.len() && is_ws(#[trigger] tp[i]) implies tp[i] == ' ' && (i + 1
                < tp.len() ==> !is_ws(tp[i + 1])) by {
                assert(tp[i] == t[i]);
                if i + 1 < tp.len() {
                    assert(tp[i + 1] == t[i + 1]);
                }
            }
            if tp.len() > 0 {
                assert(tp[0] == t[0]);
            }
        }
        lemma_normalize_spaced(tp);
        let c = t.last();
        if is_ws(c) {
            if tp.len() > 0 && is_ws(tp.last()) {
                assert(is_ws(t[t.len() - 2]));
            }
        } else if t.len() > 1 && !is_ws(t[t.len() - 2]) {
            assert(tp.push(c) =~= t);
        } else if t.len() > 1 {
            assert(is_ws(t[t.len() - 2]));
            assert(t[t.len() - 2] == ' ');
            assert(tp.drop_last().len() > 0);
            assert(tp.drop_last().push(' ').push(c) =~= t);
        } else {
            assert(seq![c] =~= t);
        }
    }
}

/// The words of a text, as `split_whitespace` gives them: the maximal runs
/// of characters that are not whitespace, in order.
pub open spec fn ws_words(s: Seq<char>) -> Seq<Seq<char>>
    decreases s.len(),
{
    if s.len() == 0 {
        Seq::empty()
    } else {
        let prev = ws_words(s.drop_last());
        let c = s.last();
        if is_ws(c) {
            prev
        } else if s.len() > 1 && !is_ws(s[s.len() - 2]) && prev.len() > 0 {
            prev.drop_last().push(prev.last().push(c))
        } else {
            prev.push(seq![c])
        }
    }
}

/// Whitespace normalisation is splitting a text into its words and joining
/// them with single spaces.
pub proof fn lemma_normalize_ws_words(s: Seq<char>)
    ensures
        normalize_ws(s) == join_with(ws_words(s), " "@),
        forall|i: int| 0 <= i < ws_words(s).len() ==> (#[trigger] ws_words(s)[i]).len() > 0,
    decreases s.len(),
{
    reveal_strlit(" ");
    if s.len() > 0 {
        let t = s.drop_last();
        let prev = ws_words(t);
        let pn = normalize_ws(t);
        lemma_normalize_ws_words(t);
        let c = s.last();
        if is_ws(c) {
        } else if s.len() > 1 && !is_ws(s[s.len() - 2]) && prev.len() > 0 {
            let w = prev.drop_last().push(prev.last().push(c));
            if prev.len() == 1 {
                assert(w.len() == 1);
                assert(pn == prev[0]);
            } else {
                assert(w.drop_last() =~= prev.drop_last());
                assert(join_with(w, " "@) =~= join_with(prev.drop_last(), " "@) + " "@ + prev.last().push(c));
                assert(pn =~= join_with(prev.drop_last(), " "@) + " "@ + prev.last());
            }
            assert forall|i: int| 0 <= i < w.len() implies (#[trigger] w[i]).len() > 0 by {
                if i < w.len() - 1 {
                    assert(w[i] == prev[i]);
                }
            }
        } else {
            let w = prev.push(seq![c]);
            if s.len() > 1 && !is_ws(s[s.len() - 2]) {
                lemma_normalize_ws_last(t);
                assert(pn.len() > 0);
                assert(prev.len() > 0);
            }
            if prev.len() == 0 {
                assert(pn.len() == 0);
                assert(w =~= seq![seq![c]]);
            } else {
                assert(join_with(prev, " "@).len() >= prev[0].len()) by {
                    lemma_join_with_nonempty(prev, " "@);
                }
                assert(w.drop_last() =~= prev);
                assert(join_with(w, " "@) =~= pn + " "@ + seq![c]);
                assert(pn.len() > 0);
                assert(pn.push(' ').push(c) =~= pn + " "@ + seq![c]);
            }
            assert forall|i: int| 0 <= i < w.len() implies (#[trigger] w[i]).len() > 0 by {
                if i < w.len() - 1 {
                    assert(w[i] == prev[i]);
                }
            }
        }
    }
}

/// A join of parts is at least as long as its first part.
proof fn lemma_join_with_nonempty(parts: Seq<Seq<char>>, sep: Seq<char>)
    requires
        parts.len() > 0,
    ensures
        join_with(parts, sep).len() >= parts[0].len(),
    decreases parts.len(),
{
    if parts.len() > 1 {
        lemma_join_with_nonempty(parts.drop_last(), sep);
        assert(parts.drop_last()[0] == parts[0]);
    }
}

/// Normalising whitespace twice changes nothing more than once.
pub proof fn lemma_normalize_ws_idempotent(s: Seq<char>)
    ensures
        normalize_ws(normalize_ws(s)) == normalize_ws(s),
{
    lemma_normalize_ws_shape(s);
    lemma_normalize_spaced(normalize_ws(s));
}

/// Whitespace normalisation of a text: its words joined by single spaces.
pub fn normalize_text_whitespace(text: &str) -> (out: String)
    ensures
        out@ == normalize_ws(text@),
{
    let v = chars_of(text);
    normalize_chars(&v)
}

/// Whitespace normalisation written into a reusable buffer, whose previous
/// contents are discarded.
pub fn normalize_text_whitespace_into(input: &str, output: &mut String)
    ensures
        final(output)@ == normalize_ws(input@),
{
    *output = normalize_text_whitespace(input);
}

/// Removes the parentheses that mark a background vocal from both ends of
/// a text, writing the result into a reusable buffer.
pub fn clean_parentheses_from_bg_text_into(text: &str, output: &mut String)
    ensures
        final(output)@ == clean_parens(text@),
{
    let v = chars_of(text);
    let n = v.len();
    assert(v@.subrange(0, n as int) =~= v@);
    let a = skip_class_front(&v, 0, n, CharClass::Whitespace);
    let b = skip_class_back(&v, a, n, CharClass::Whitespace);
    let c = skip_class_front(&v, a, b, CharClass::OpenParen);
    let d = skip_class_back(&v, c, b, CharClass::CloseParen);
    let e = skip_class_front(&v, c, d, CharClass::Whitespace);
    let f = skip_class_back(&v, e, d, CharClass::Whitespace);
    *output = string_from_range(&v, e, f);
}

// ---------------------------------------------------------------------------
// Decimal rendering of numbers
// ---------------------------------------------------------------------------

/// The ASCII digit for `d < 10`.
pub open spec fn digit_char(d: nat) -> char {
    if d == 0 { '0' }
    else if d == 1 { '1' }
    else if d == 2 { '2' }
    else if d == 3 { '3' }
    else if d == 4 { '4' }
    else if d == 5 { '5' }
    else if d == 6 { '6' }
    else if d == 7 { '7' }
    else if d == 8 { '8' }
    else { '9' }
}

/// The decimal representation of `n`, without leading zeros (`"0"` for zero).
pub open spec fn decimal(n: nat) -> Seq<char>
    decreases n,
{
    if n < 10 {
        seq![digit_char(n)]
    } else {
        decimal(n / 10).push(digit_char(n % 10))
    }
}

/// `s` preceded by as many `'0'` as needed to reach `width` characters.
pub open spec fn zero_pad(s: Seq<char>, width: nat) -> Seq<char> {
    if s.len() >= width {
        s
    } else {
        Seq::new((width - s.len()) as nat, |i: int| '0') + s
    }
}

/// The decimal representation of `n`, zero-padded to `width` digits (`{n:0w}`).
pub open spec fn decimal_padded(n: nat, width: nat) -> Seq<char> {
    zero_pad(decimal(n), width)
}

/// The ASCII digit of a value below ten.
pub fn digit_of(d: u64) -> (c: char)
    requires
        d < 10,
    ensures
        c == digit_char(d as nat),
{
    if d == 0 { '0' }
    else if d == 1 { '1' }
    else if d == 2 { '2' }
    else if d == 3 { '3' }
    else if d == 4 { '4' }
    else if d == 5 { '5' }
    else if d == 6 { '6' }
    else if d == 7 { '7' }
    else if d == 8 { '8' }
    else { '9' }
}

/// Appends the decimal representation of `n` to `out`.
pub fn push_decimal(out: &mut String, n: u64)
    ensures
        final(out)@ == old(out)@ + decimal(n as nat),
    decreases n,
{
    if n < 10 {
        push_char(out, digit_of(n));
        assert(decimal(n as nat) =~= seq![digit_char(n as nat)]);
    } else {
        push_decimal(out, n / 10);
        push_char(out, digit_of(n % 10));
        assert(decimal(n as nat) == decimal((n / 10) as nat).push(digit_char((n % 10) as nat)));
    }
}

/// The number of digits in the decimal representation of `n`.
pub proof fn lemma_decimal_len(n: nat)
    ensures
        decimal(n).len() >= 1,
        n < 10 <==> decimal(n).len() == 1,
        n < 100 <==> decimal(n).len() <= 2,
        n < 1000 <==> decimal(n).len() <= 3,
    decreases n,
{
    if n >= 10 {
        lemma_decimal_len(n / 10);
    }
}

/// Appends `n` zero-padded to `width` digits.
pub fn push_decimal_padded(out: &mut String, n: u64, width: usize)
    requires
        width <= 3,
    ensures
        final(out)@ == old(out)@ + decimal_padded(n as nat, width as nat),
{
    proof {
        lemma_decimal_len(n as nat);
    }
    let ghost d = decimal(n as nat);
    let ghost start = out@;
    let mut digits: usize = 1;
    if n >= 10 {
        digits = 2;
    }
    if n >= 100 {
        digits = 3;
    }
    if width > digits {
        assert(d.len() == digits);
        let mut k: usize = 0;
        while k < width - digits
            invariant
                k <= width - digits,
                out@ == start + Seq::new(k as nat, |i: int| '0'),
            decreases width - digits - k,
        {
            push_char(out, '0');
            assert(Seq::new((k + 1) as nat, |i: int| '0') =~= Seq::new(k as nat, |i: int| '0').push('0'));
            k = k + 1;
        }
    }
    push_decimal(out, n);
    proof {
        if width > digits {
            assert(out@ =~= start + (Seq::new((width - d.len()) as nat, |i: int| '0') + d));
        } else {
            assert(d.len() >= width);
        }
    }
}

/// The decimal representation of `n`.
pub fn u64_to_string(n: u64) -> (s: String)
    ensures
        s@ == decimal(n as nat),
{
    let mut s = String::new();
    push_decimal(&mut s, n);
    assert(s@ =~= decimal(n as nat));
    s
}

// ---------------------------------------------------------------------------
// Lists of texts
// ---------------------------------------------------------------------------

/// The texts of a sequence of strings.
pub open spec fn texts(v: Seq<String>) -> Seq<Seq<char>> {
    v.map_values(|s: String| s@)
}

/// The parts joined, with `sep` between each two of them.
pub open spec fn join_with(parts: Seq<Seq<char>>, sep: Seq<char>) -> Seq<char>
    decreases parts.len(),
{
    if parts.len() == 0 {
        Seq::empty()
    } else if parts.len() == 1 {
        parts[0]
    } else {
        join_with(parts.drop_last(), sep) + sep + parts.last()
    }
}

/// The strings of `parts` joined with `sep` between each two of them.
pub fn join_strings(parts: &Vec<String>, sep: &str) -> (r: String)
    ensures
        r@ == join_with(texts(parts@), sep@),
{
    let mut out = String::new();
    let mut i: usize = 0;
    while i < parts.len()
        invariant
            i <= parts@.len(),
            out@ == join_with(texts(parts@).take(i as int), sep@),
        decreases parts@.len() - i,
    {
        let ghost prev = out@;
        assert(texts(parts@).take(i + 1).drop_last() =~= texts(parts@).take(i as int));
        if i == 0 {
            push_str(&mut out, parts[i].as_str());
            assert(out@ =~= join_with(texts(parts@).take(i + 1), sep@));
        } else {
            push_str(&mut out, sep);
            push_str(&mut out, parts[i].as_str());
            assert(out@ =~= join_with(texts(parts@).take(i + 1), sep@));
        }
        i = i + 1;
    }
    assert(texts(parts@).take(parts@.len() as int) =~= texts(parts@));
    out
}

} // verus!
