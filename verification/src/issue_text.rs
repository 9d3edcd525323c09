//! The texts the lyric bot reads from and writes to issues and pull
//! requests: the fields of a submission form, titles, bodies and comments.

use vstd::prelude::*;
use vstd::string::StringSliceAdditionalSpecFns;

use crate::metadata::{CanonicalMetadataKey, KeyView, MetadataStore};
use vstd::utf8::encode_utf8;

use crate::text::{
    chars_of, decimal, join_strings, join_with, push_char, push_decimal, push_str, str_eq, string_from_range, text_is_empty,
    texts, to_owned_string, trim, trim_string,
};
use crate::time::{all_digits, is_digit, lemma_decimal_digits, lemma_parse_digits, parse_u64_range, parse_u64_spec};
use crate::text::{in_class, is_ws, strip_end, strip_start, CharClass};

verus! {

// ---------------------------------------------------------------------------
// Lines
// ---------------------------------------------------------------------------

/// `s` without one trailing carriage return.
pub open spec fn strip_cr(s: Seq<char>) -> Seq<char> {
    if s.len() > 0 && s.last() == '\r' {
        s.drop_last()
    } else {
        s
    }
}

/// The finished lines and the line in progress after reading `s`.
pub open spec fn lines_state(s: Seq<char>) -> (Seq<Seq<char>>, Seq<char>)
    decreases s.len(),
{
    if s.len() == 0 {
        (Seq::empty(), Seq::empty())
    } else {
        let (done, cur) = lines_state(s.drop_last());
        if s.last() == '\n' {
            (done.push(strip_cr(cur)), Seq::empty())
        } else {
            (done, cur.push(s.last()))
        }
    }
}

/// The lines of a text, as `str::lines` yields them: split at `\n`, a
/// `\r` before it removed, no empty line after a final `\n`.
pub open spec fn text_lines(s: Seq<char>) -> Seq<Seq<char>> {
    let (done, cur) = lines_state(s);
    if cur.len() > 0 {
        done.push(cur)
    } else {
        done
    }
}

/// The lines of a text (see `text_lines`).
pub fn lines_of(s: &str) -> (r: Vec<String>)
    ensures
        texts(r@) == text_lines(s@),
{
    let v = chars_of(s);
    let mut lines: Vec<String> = Vec::new();
    let mut start: usize = 0;
    let mut i: usize = 0;
    while i < v.len()
        invariant
            v@ == s@,
            start <= i <= v@.len(),
            texts(lines@) == lines_state(s@.take(i as int)).0,
            v@.subrange(start as int, i as int) == lines_state(s@.take(i as int)).1,
        decreases v@.len() - i,
    {
        assert(s@.take(i + 1).drop_last() =~= s@.take(i as int));
        if v[i] == '\n' {
            let end = if i > start && v[i - 1] == '\r' { i - 1 } else { i };
            let line = string_from_range(&v, start, end);
            let ghost before = texts(lines@);
            lines.push(line);
            proof {
                assert(v@.subrange(start as int, end as int) =~= strip_cr(v@.subrange(start as int, i as int)));
                assert(texts(lines@) =~= before.push(strip_cr(v@.subrange(start as int, i as int))));
            }
            start = i + 1;
            assert(v@.subrange(start as int, i + 1) =~= Seq::<char>::empty());
        } else {
            assert(v@.subrange(start as int, i + 1) =~= v@.subrange(start as int, i as int).push(v@[i as int]));
        }
        i = i + 1;
    }
    assert(s@.take(v@.len() as int) =~= s@);
    if start < v.len() {
        let ghost before = texts(lines@);
        lines.push(string_from_range(&v, start, v.len()));
        assert(texts(lines@) =~= before.push(v@.subrange(start as int, v@.len() as int)));
    }
    lines
}

// ---------------------------------------------------------------------------
// Submission forms
// ---------------------------------------------------------------------------

/// Whether `s` starts with `p`.
pub open spec fn starts_with(s: Seq<char>, p: Seq<char>) -> bool {
    p.len() <= s.len() && s.take(p.len() as int) == p
}

/// `s` without all leading repetitions of `p` (`str::trim_start_matches`).
pub open spec fn strip_all_prefix(s: Seq<char>, p: Seq<char>) -> Seq<char>
    decreases s.len(),
{
    if p.len() > 0 && starts_with(s, p) {
        strip_all_prefix(s.skip(p.len() as int), p)
    } else {
        s
    }
}

/// The state of reading a submission form: the fields read so far, in
/// order, and the field being read with its value so far.
pub struct FormState {
    pub fields: Seq<(Seq<char>, Seq<char>)>,
    pub current: Option<(Seq<char>, Seq<char>)>,
}

/// Reading one line of a form: `### Name` starts a field (closing the one
/// before); in a field, a checked box `- [x] v` adds `v`, an unchecked box
/// adds nothing, any other line adds itself, trimmed, each with a line
/// break.
pub open spec fn form_step(st: FormState, line: Seq<char>) -> FormState {
    if starts_with(line, "### "@) {
        FormState {
            fields: match st.current {
                Some((k, v)) => st.fields.push((k, trim(v))),
                None => st.fields,
            },
            current: Some((trim(strip_all_prefix(line, "### "@)), Seq::empty())),
        }
    } else {
        match st.current {
            Some((k, v)) => {
                let t = trim(line);
                if starts_with(t, "- [x] "@) {
                    FormState { fields: st.fields, current: Some((k, v + trim(t.skip(6)) + seq!['\n'])) }
                } else if starts_with(t, "- [ ] "@) {
                    st
                } else {
                    FormState { fields: st.fields, current: Some((k, v + t + seq!['\n'])) }
                }
            },
            None => st,
        }
    }
}

/// The form state after the lines `ls`.
pub open spec fn form_state(ls: Seq<Seq<char>>) -> FormState
    decreases ls.len(),
{
    if ls.len() == 0 {
        FormState { fields: Seq::empty(), current: None }
    } else {
        form_step(form_state(ls.drop_last()), ls.last())
    }
}

/// The fields of a form in order (a name may come twice).
pub open spec fn form_fields(body: Seq<char>) -> Seq<(Seq<char>, Seq<char>)> {
    let st = form_state(text_lines(body));
    match st.current {
        Some((k, v)) => st.fields.push((k, trim(v))),
        None => st.fields,
    }
}

/// The fields as a map: a later field of the same name wins.
pub open spec fn fields_map(f: Seq<(Seq<char>, Seq<char>)>) -> Map<Seq<char>, Seq<char>>
    decreases f.len(),
{
    if f.len() == 0 {
        Map::empty()
    } else {
        fields_map(f.drop_last()).insert(f.last().0, f.last().1)
    }
}

/// The texts of pairs of strings.
pub open spec fn pair_texts(v: Seq<(String, String)>) -> Seq<(Seq<char>, Seq<char>)> {
    v.map_values(|p: (String, String)| (p.0@, p.1@))
}

/// Whether `s` starts with `p` (characters).
pub(crate) fn starts_with_str(s: &Vec<char>, p: &str) -> (r: bool)
    ensures
        r == starts_with(s@, p@),
{
    let pv = chars_of(p);
    if pv.len() > s.len() {
        return false;
    }
    let mut i: usize = 0;
    while i < pv.len()
        invariant
            pv@ == p@,
            pv@.len() <= s@.len(),
            i <= pv@.len(),
            forall|k: int| 0 <= k < i ==> s@[k] == pv@[k],
        decreases pv@.len() - i,
    {
        if s[i] != pv[i] {
            assert(s@.take(p@.len() as int)[i as int] != p@[i as int]);
            return false;
        }
        i = i + 1;
    }
    assert(s@.take(p@.len() as int) =~= p@);
    true
}

/// The fields of a submission form in order (see `form_fields`); a name
/// that comes twice keeps its last value (see `fields_map` and
/// `issue_param`).
pub fn parse_issue_body(body: &str) -> (r: Vec<(String, String)>)
    ensures
        pair_texts(r@) == form_fields(body@),
{
    proof {
        reveal_strlit("### ");
        reveal_strlit("- [x] ");
        reveal_strlit("- [ ] ");
    }
    let lines = lines_of(body);
    let ghost ls = texts(lines@);
    let mut params: Vec<(String, String)> = Vec::new();
    let mut current_key: Option<String> = None;
    let mut current_value = String::new();
    let mut i: usize = 0;
    while i < lines.len()
        invariant
            i <= lines@.len(),
            ls == texts(lines@),
            pair_texts(params@) == form_state(ls.take(i as int)).fields,
            match form_state(ls.take(i as int)).current {
                Some((k, v)) => current_key matches Some(ck) && ck@ == k && current_value@ == v,
                None => current_key is None,
            },
            "### "@.len() == 4,
            "- [x] "@.len() == 6,
            "- [ ] "@.len() == 6,
        decreases lines@.len() - i,
    {
        assert(ls.take(i + 1).drop_last() =~= ls.take(i as int));
        let line = chars_of(lines[i].as_str());
        assert(ls[i as int] == line@);
        if starts_with_str(&line, "### ") {
            match current_key {
                Some(key) => {
                    let v = trim_string(current_value.as_str());
                    let ghost before = pair_texts(params@);
                    params.push((key, v));
                    assert(pair_texts(params@) =~= before.push((key@, v@)));
                },
                None => {},
            }
            let stripped = strip_prefixes(&line, "### ");
            current_key = Some(trim_string(stripped.as_str()));
            current_value = String::new();
        } else if current_key.is_some() {
            let t = trim_string(lines[i].as_str());
            let tv = chars_of(t.as_str());
            if starts_with_str(&tv, "- [x] ") {
                let rest = string_from_range(&tv, 6, tv.len());
                assert(rest@ =~= t@.skip(6));
                let trimmed = trim_string(rest.as_str());
                push_str(&mut current_value, trimmed.as_str());
                push_char(&mut current_value, '\n');
            } else if starts_with_str(&tv, "- [ ] ") {
            } else {
                push_str(&mut current_value, t.as_str());
                push_char(&mut current_value, '\n');
            }
        }
        i = i + 1;
    }
    assert(ls.take(ls.len() as int) =~= ls);
    match current_key {
        Some(key) => {
            let v = trim_string(current_value.as_str());
            let ghost before = pair_texts(params@);
            params.push((key, v));
            assert(pair_texts(params@) =~= before.push((key@, v@)));
        },
        None => {},
    }
    params
}

/// The value of a form field, the last one if the name comes twice.
pub fn issue_param<'a>(params: &'a Vec<(String, String)>, name: &str) -> (r: Option<&'a String>)
    ensures
        match r {
            Some(v) => fields_map(pair_texts(params@)).contains_key(name@) && v@ == fields_map(pair_texts(params@))[name@],
            None => !fields_map(pair_texts(params@)).contains_key(name@),
        },
{
    let mut i: usize = params.len();
    assert(params@.take(params@.len() as int) =~= params@);
    while i > 0
        invariant
            i <= params@.len(),
            fields_map(pair_texts(params@)).contains_key(name@) == fields_map(pair_texts(params@.take(i as int))).contains_key(name@),
            fields_map(pair_texts(params@)).contains_key(name@) ==> fields_map(pair_texts(params@))[name@] == fields_map(pair_texts(params@.take(i as int)))[name@],
        decreases i,
    {
        assert(pair_texts(params@.take(i as int)).drop_last() =~= pair_texts(params@.take(i - 1)));
        assert(pair_texts(params@.take(i as int)).last() == (params@[i - 1].0@, params@[i - 1].1@));
        if str_eq(params[i - 1].0.as_str(), name) {
            return Some(&params[i - 1].1);
        }
        i = i - 1;
    }
    assert(pair_texts(params@.take(0)) =~= Seq::<(Seq<char>, Seq<char>)>::empty());
    None
}

/// `s` without all leading repetitions of `p` (see `strip_all_prefix`).
fn strip_prefixes(s: &Vec<char>, p: &str) -> (r: String)
    ensures
        r@ == strip_all_prefix(s@, p@),
{
    let pv = chars_of(p);
    let mut start: usize = 0;
    assert(s@.skip(0) =~= s@);
    while pv.len() > 0 && pv.len() <= s.len() - start && matches_at(s, start, &pv)
        invariant
            pv@ == p@,
            start <= s@.len(),
            strip_all_prefix(s@, p@) == strip_all_prefix(s@.skip(start as int), p@),
        decreases s@.len() - start,
    {
        assert(starts_with(s@.skip(start as int), p@)) by {
            assert(s@.skip(start as int).take(p@.len() as int) =~= s@.subrange(start as int, start + p@.len()));
        }
        assert(s@.skip(start as int).skip(p@.len() as int) =~= s@.skip(start + p@.len()));
        start = start + pv.len();
    }
    proof {
        if !(pv@.len() > 0 && pv@.len() <= s@.len() - start && s@.subrange(start as int, start + pv@.len()) == pv@) {
            if pv@.len() > 0 && pv@.len() <= s@.len() - start {
                assert(s@.skip(start as int).take(p@.len() as int) =~= s@.subrange(start as int, start + p@.len()));
            }
        }
    }
    let r = string_from_range(s, start, s.len());
    assert(r@ =~= s@.skip(start as int));
    r
}

/// Whether `p` occurs in `s` at `start`.
fn matches_at(s: &Vec<char>, start: usize, p: &Vec<char>) -> (r: bool)
    requires
        start + p@.len() <= s@.len(),
    ensures
        r == (s@.subrange(start as int, start + p@.len()) == p@),
{
    let mut i: usize = 0;
    while i < p.len()
        invariant
            start + p@.len() <= s@.len(),
            i <= p@.len(),
            forall|k: int| 0 <= k < i ==> s@[start + k] == p@[k],
        decreases p@.len() - i,
    {
        let sl = s.len();
        assert(start + i < sl);
        if s[start + i] != p[i] {
            assert(s@.subrange(start as int, start + p@.len())[i as int] != p@[i as int]);
            return false;
        }
        i = i + 1;
    }
    assert(s@.subrange(start as int, start + p@.len()) =~= p@);
    true
}

// ---------------------------------------------------------------------------
// Pull request bodies
// ---------------------------------------------------------------------------

/// The issue number a pull request body refers to: the first line that,
/// trimmed, is `#` followed by a number.
pub open spec fn issue_number_in(ls: Seq<Seq<char>>) -> Option<nat>
    decreases ls.len(),
{
    if ls.len() == 0 {
        None
    } else {
        let t = trim(ls[0]);
        if t.len() > 0 && t[0] == '#' && parse_u64_spec(t.drop_first()) is Some {
            parse_u64_spec(t.drop_first())
        } else {
            issue_number_in(ls.drop_first())
        }
    }
}

/// The issue number a pull request body refers to (see `issue_number_in`).
pub fn parse_issue_number_from_pr_body(body: Option<&str>) -> (r: Option<u64>)
    ensures
        match body {
            Some(b) => match issue_number_in(text_lines(b@)) {
                Some(n) => r matches Some(x) && x == n,
                None => r is None,
            },
            None => r is None,
        },
{
    let b = match body {
        Some(b) => b,
        None => {
            return None;
        },
    };
    let lines = lines_of(b);
    let ghost ls = texts(lines@);
    let mut i: usize = 0;
    assert(ls.skip(0) =~= ls);
    while i < lines.len()
        invariant
            i <= lines@.len(),
            ls == texts(lines@),
            ls == text_lines(b@),
            body == Some(b),
            issue_number_in(ls) == issue_number_in(ls.skip(i as int)),
        decreases lines@.len() - i,
    {
        assert(ls.skip(i as int).drop_first() =~= ls.skip(i + 1));
        assert(ls.skip(i as int)[0] == lines@[i as int]@);
        let t = trim_string(lines[i].as_str());
        let tv = chars_of(t.as_str());
        if tv.len() > 0 && tv[0] == '#' {
            let n = parse_u64_range(&tv, 1, tv.len());
            assert(tv@.subrange(1, tv@.len() as int) =~= t@.drop_first());
            match n {
                Some(x) => {
                    assert(t@ == trim(ls.skip(i as int)[0]));
                    return Some(x);
                },
                None => {},
            }
        }
        i = i + 1;
    }
    assert(ls.skip(lines@.len() as int) =~= Seq::<Seq<char>>::empty());
    None
}

// ---------------------------------------------------------------------------
// Comments
// ---------------------------------------------------------------------------

/// One warning as a quoted list item.
pub open spec fn quote_line(w: Seq<char>) -> Seq<char> {
    "> - "@ + w
}

/// The warnings as quoted list items, one per line.
pub open spec fn quoted_warnings(ws: Seq<Seq<char>>) -> Seq<char> {
    join_with(ws.map_values(|w: Seq<char>| quote_line(w)), "\n"@)
}

/// The warnings as quoted list items, one per line (see `quoted_warnings`).
pub fn quote_warnings(warnings: &[String]) -> (r: String)
    ensures
        r@ == quoted_warnings(texts(warnings@)),
{
    let mut parts: Vec<String> = Vec::new();
    let mut i: usize = 0;
    while i < warnings.len()
        invariant
            i <= warnings@.len(),
            texts(parts@) == texts(warnings@).take(i as int).map_values(|w: Seq<char>| quote_line(w)),
        decreases warnings@.len() - i,
    {
        let mut item = to_owned_string("> - ");
        push_str(&mut item, warnings[i].as_str());
        let ghost before = texts(parts@);
        parts.push(item);
        assert(texts(parts@) =~= texts(warnings@).take(i + 1).map_values(|w: Seq<char>| quote_line(w))) by {
            assert(texts(parts@) =~= before.push(item@));
        }
        i = i + 1;
    }
    assert(texts(warnings@).take(warnings@.len() as int) =~= texts(warnings@));
    join_strings(&parts, "\n")
}

/// The block of warnings added to the bot's comments, if there are any.
pub open spec fn comment_warnings(ws: Seq<Seq<char>>) -> Seq<char> {
    if ws.len() > 0 {
        "\n\n> [!WARNING]\n> 解析歌词文件时发现以下问题:\n"@ + quoted_warnings(ws)
    } else {
        Seq::empty()
    }
}

/// Appends the block of warnings (see `comment_warnings`).
fn push_comment_warnings(out: &mut String, warnings: &[String])
    ensures
        final(out)@ == old(out)@ + comment_warnings(texts(warnings@)),
{
    if warnings.len() > 0 {
        push_str(out, "\n\n> [!WARNING]\n> 解析歌词文件时发现以下问题:\n");
        let q = quote_warnings(warnings);
        push_str(out, q.as_str());
    } else {
        assert(old(out)@ + comment_warnings(texts(warnings@)) =~= old(out)@);
    }
}

/// The section quoting the submitted lyric file in a comment.
pub open spec fn original_section(lyric: Seq<char>) -> Seq<char> {
    "\n\n"@ + "**原始歌词数据:**"@ + "\n\n"@ + "\n```xml\n"@ + lyric + "\n```"@
}

/// A comment: `base`, followed by the quoted lyric file when there is one
/// and the whole fits in `max_len` bytes of UTF-8; `base` alone otherwise.
pub open spec fn comment_body(base: Seq<char>, original: Option<Seq<char>>, max_len: nat) -> Seq<char> {
    match original {
        Some(lyric) => {
            let full = base + original_section(lyric);
            if (encode_utf8(full).len() as usize) <= max_len {
                full
            } else {
                base
            }
        },
        None => base,
    }
}

/// A comment is its base text, or fits in the limit: the quoted lyric file
/// is only ever added when the whole stays within `max_len` bytes.
pub proof fn lemma_comment_within_limit(base: Seq<char>, original: Option<Seq<char>>, max_len: nat)
    ensures
        comment_body(base, original, max_len) == base || (encode_utf8(comment_body(base, original, max_len)).len()
            as usize) <= max_len,
{
}

/// The view of an optional text.
pub open spec fn opt_str(o: Option<&str>) -> Option<Seq<char>> {
    match o {
        Some(s) => Some(s@),
        None => None,
    }
}

/// A comment made of `base_text` and, if it fits in `max_len` bytes, the
/// quoted lyric file (see `comment_body`).
pub fn build_body(base_text: &str, original_lyric: Option<&str>, max_len: usize) -> (r: String)
    ensures
        r@ == comment_body(base_text@, opt_str(original_lyric), max_len as nat),
{
    match original_lyric {
        Some(lyric) => {
            let mut full = to_owned_string(base_text);
            push_str(&mut full, "\n\n");
            push_str(&mut full, "**原始歌词数据:**");
            push_str(&mut full, "\n\n");
            push_str(&mut full, "\n```xml\n");
            push_str(&mut full, lyric);
            push_str(&mut full, "\n```");
            assert(full@ =~= base_text@ + original_section(lyric@));
            if full.as_str().len() <= max_len {
                full
            } else {
                to_owned_string(base_text)
            }
        },
        None => to_owned_string(base_text),
    }
}

/// The marker that the bot leaves in its comments on an issue.
pub open spec fn checked_mark() -> Seq<char> {
    "<!-- AMLL-DB-BOT-CHECKED -->"@
}

/// The longest comment the bot posts, in bytes.
pub open spec fn comment_limit() -> nat {
    65535
}

/// The comment posted on an issue whose lyrics were accepted.
pub open spec fn success_comment(original: Seq<char>, ws: Seq<Seq<char>>) -> Seq<char> {
    comment_body(
        checked_mark() + "\n\n歌词提交议题检查完毕！\n已自动创建歌词提交合并请求！\n请耐心等待管理员审核歌词吧！"@
            + comment_warnings(ws),
        Some(original),
        comment_limit(),
    )
}

/// The comment posted on an issue whose lyrics were accepted (see
/// `success_comment`).
pub fn build_issue_success_comment(original_lyric: &str, warnings: &[String]) -> (r: String)
    ensures
        r@ == success_comment(original_lyric@, texts(warnings@)),
{
    let mut base = to_owned_string("<!-- AMLL-DB-BOT-CHECKED -->");
    push_str(&mut base, "\n\n歌词提交议题检查完毕！\n已自动创建歌词提交合并请求！\n请耐心等待管理员审核歌词吧！");
    push_comment_warnings(&mut base, warnings);
    build_body(base.as_str(), Some(original_lyric), 65535)
}

/// The comment posted on an issue whose submission was declined.
pub open spec fn decline_comment(reason: Seq<char>, lyric: Seq<char>) -> Seq<char> {
    comment_body(checked_mark() + "\n\n**歌词提交议题检查失败**\n\n原因: "@ + reason, Some(lyric), comment_limit())
}

/// The comment posted on an issue whose submission was declined (see
/// `decline_comment`).
pub fn build_decline_comment(reason: &str, ttml_content: &str) -> (r: String)
    ensures
        r@ == decline_comment(reason@, ttml_content@),
{
    let mut base = to_owned_string("<!-- AMLL-DB-BOT-CHECKED -->");
    push_str(&mut base, "\n\n**歌词提交议题检查失败**\n\n原因: ");
    push_str(&mut base, reason);
    assert(base@ =~= checked_mark() + "\n\n**歌词提交议题检查失败**\n\n原因: "@ + reason@);
    build_body(base.as_str(), Some(ttml_content), 65535)
}

/// The comment posted on a pull request whose update failed.
pub open spec fn pr_failure_comment(requester: Seq<char>, reason: Seq<char>, lyric: Seq<char>) -> Seq<char> {
    comment_body(
        "@"@ + requester + "，你提交的歌词文件更新失败。\n\n**原因**: "@ + reason,
        Some(lyric),
        comment_limit(),
    )
}

/// The comment posted on a pull request whose update failed (see
/// `pr_failure_comment`).
pub fn build_pr_failure_comment(requester: &str, reason: &str, ttml_content: &str) -> (r: String)
    ensures
        r@ == pr_failure_comment(requester@, reason@, ttml_content@),
{
    let mut base = to_owned_string("@");
    push_str(&mut base, requester);
    push_str(&mut base, "，你提交的歌词文件更新失败。\n\n**原因**: ");
    push_str(&mut base, reason);
    build_body(base.as_str(), Some(ttml_content), 65535)
}

/// The comment posted on a pull request whose lyrics were updated.
pub open spec fn pr_update_comment(requester: Seq<char>, ws: Seq<Seq<char>>) -> Seq<char> {
    comment_body("@"@ + requester + "，歌词文件已根据你的请求更新！"@ + comment_warnings(ws), None, comment_limit())
}

/// The comment posted on a pull request whose lyrics were updated (see
/// `pr_update_comment`).
pub fn build_pr_update_comment(requester: &str, warnings: &[String]) -> (r: String)
    ensures
        r@ == pr_update_comment(requester@, texts(warnings@)),
{
    let mut base = to_owned_string("@");
    push_str(&mut base, requester);
    push_str(&mut base, "，歌词文件已根据你的请求更新！");
    push_comment_warnings(&mut base, warnings);
    build_body(base.as_str(), None, 65535)
}

/// The comment posted on a pull request closed at a user's request.
pub open spec fn close_comment(requester: Seq<char>, reason: Option<Seq<char>>) -> Seq<char> {
    "应用户 @"@ + requester + " 的请求，此 PR 已关闭。\n\n**原因**: "@ + match reason {
        Some(r) => r,
        None => "无"@,
    }
}

/// The comment posted on a pull request closed at a user's request (see
/// `close_comment`).
pub fn build_close_comment(requester: &str, reason: Option<&str>) -> (r: String)
    ensures
        r@ == close_comment(requester@, opt_str(reason)),
{
    let mut out = to_owned_string("应用户 @");
    push_str(&mut out, requester);
    push_str(&mut out, " 的请求，此 PR 已关闭。\n\n**原因**: ");
    match reason {
        Some(r) => push_str(&mut out, r),
        None => push_str(&mut out, "无"),
    }
    out
}

/// The comment posted when a pull request holds no lyric file to update.
pub fn build_missing_file_comment(requester: &str) -> (r: String)
    ensures
        r@ == "抱歉，@"@ + requester@ + "，无法在此 PR 中找到需要更新的 TTML 文件。"@,
{
    let mut out = to_owned_string("抱歉，@");
    push_str(&mut out, requester);
    push_str(&mut out, "，无法在此 PR 中找到需要更新的 TTML 文件。");
    out
}

/// The comment posted when an update would change nothing.
pub fn build_no_change_comment(requester: &str) -> (r: String)
    ensures
        r@ == "@"@ + requester@ + "，你提供的新歌词文件与当前版本完全相同，无需更新。"@,
{
    let mut out = to_owned_string("@");
    push_str(&mut out, requester);
    push_str(&mut out, "，你提供的新歌词文件与当前版本完全相同，无需更新。");
    out
}

/// The commit message of an update made at a user's request.
pub fn build_update_commit_message(requester: &str) -> (r: String)
    ensures
        r@ == "更新歌词文件内容\n\n由 @"@ + requester@ + " 请求更新。"@,
{
    let mut out = to_owned_string("更新歌词文件内容\n\n由 @");
    push_str(&mut out, requester);
    push_str(&mut out, " 请求更新。");
    out
}

/// The comment posted when a user who may not operate a pull request tries to.
pub fn build_permission_denied_comment(requester: &str, original_author: &str) -> (r: String)
    ensures
        r@ == "@"@ + requester@ + "，你没有权限执行此操作。\n只有这个歌词提交的原始作者 (@"@ + original_author@
            + ") 或仓库协作者才能操作此 PR。"@,
{
    let mut out = to_owned_string("@");
    push_str(&mut out, requester);
    push_str(&mut out, "，你没有权限执行此操作。\n只有这个歌词提交的原始作者 (@");
    push_str(&mut out, original_author);
    push_str(&mut out, ") 或仓库协作者才能操作此 PR。");
    out
}

/// The comment posted when a pull request cannot be traced to its issue.
pub fn build_untraceable_comment(requester: &str) -> (r: String)
    ensures
        r@ == "@"@ + requester@ + "，操作失败。\n无法从此 PR 追溯到原始的歌词提交议题，因此无法验证你的权限。"@,
{
    let mut out = to_owned_string("@");
    push_str(&mut out, requester);
    push_str(&mut out, "，操作失败。\n无法从此 PR 追溯到原始的歌词提交议题，因此无法验证你的权限。");
    out
}

// ---------------------------------------------------------------------------
// Pull requests
// ---------------------------------------------------------------------------

/// What a pull request for an accepted submission is made from.
pub struct PrContext<'a> {
    /// The number of the submission issue.
    pub issue_number: u64,
    /// The title of the submission issue.
    pub issue_title: &'a str,
    /// The login of the issue's author.
    pub issue_author: &'a str,
    /// The numeric id of the issue's author.
    pub issue_author_id: u64,
    /// The lyric file as submitted.
    pub original_ttml: &'a str,
    /// The lyric file as it is committed.
    pub compact_ttml: &'a str,
    /// The metadata of the lyrics.
    pub metadata_store: &'a MetadataStore,
    /// The remarks of the submission form.
    pub remarks: &'a str,
    /// The warnings of reading the lyric file.
    pub warnings: &'a [String],
    /// The root of the lyric repository.
    pub root_path: &'a str,
    /// Whether the author submits for the first time.
    pub is_first_time: bool,
}

/// What the update of a pull request is made from.
pub struct PrUpdateContext<'a> {
    /// The number of the pull request.
    pub pr_number: u64,
    /// The lyric file as it is committed.
    pub compact_ttml: &'a str,
    /// The warnings of reading the lyric file.
    pub warnings: &'a [String],
    /// The root of the lyric repository.
    pub root_path: &'a str,
    /// The login of the user who asked for the update.
    pub requester: &'a str,
}

/// The label of submission issues, in brackets: an issue title that is only this says nothing.
pub open spec fn placeholder_title() -> Seq<char> {
    "[歌词提交/补正]"@
}

/// The title of the pull request for an issue titled `title`: the issue's
/// title, unless it is empty or only the label and the metadata has a
/// non-empty artist and title, which then make the title.
pub open spec fn pr_title(title: Seq<char>, m: Map<KeyView, Seq<Seq<char>>>) -> Seq<char> {
    let t = trim(title);
    if (t.len() == 0 || t == placeholder_title()) && m.contains_key(KeyView::Artist) && m.contains_key(
        KeyView::Title,
    ) && join_with(m[KeyView::Artist], ", "@).len() > 0 && join_with(m[KeyView::Title], ", "@).len() > 0 {
        placeholder_title() + " "@ + join_with(m[KeyView::Artist], ", "@) + " - "@ + join_with(
            m[KeyView::Title],
            ", "@,
        )
    } else {
        title
    }
}

/// The values of `key` joined with `, `, if it has an entry.
fn joined_values(store: &MetadataStore, key: &CanonicalMetadataKey) -> (r: Option<String>)
    requires
        store.wf(),
    ensures
        match r {
            Some(j) => store@.contains_key(key@) && j@ == join_with(store@[key@], ", "@),
            None => !store@.contains_key(key@),
        },
{
    match store.get_multiple_values(key) {
        Some(v) => Some(join_strings(v, ", ")),
        None => None,
    }
}

/// The title of the pull request for a submission (see `pr_title`).
pub fn generate_pr_title(context: &PrContext) -> (r: String)
    requires
        context.metadata_store.wf(),
    ensures
        r@ == pr_title(context.issue_title@, context.metadata_store@),
{
    let trimmed = trim_string(context.issue_title);
    if text_is_empty(trimmed.as_str()) || str_eq(trimmed.as_str(), "[歌词提交/补正]") {
        let artists = joined_values(context.metadata_store, &CanonicalMetadataKey::Artist);
        let titles = joined_values(context.metadata_store, &CanonicalMetadataKey::Title);
        match (artists, titles) {
            (Some(artist_str), Some(title_str)) => {
                if !text_is_empty(artist_str.as_str()) && !text_is_empty(title_str.as_str()) {
                    let mut out = to_owned_string("[歌词提交/补正]");
                    push_str(&mut out, " ");
                    push_str(&mut out, artist_str.as_str());
                    push_str(&mut out, " - ");
                    push_str(&mut out, title_str.as_str());
                    return out;
                }
            },
            _ => {},
        }
    }
    to_owned_string(context.issue_title)
}

/// One value as a list item in code style.
pub open spec fn value_item(v: Seq<char>) -> Seq<char> {
    "- `"@ + v + "`"@
}

/// The section of a pull request body for the values of `key`, headed
/// `title`: none when the key has no values.
pub open spec fn metadata_section(m: Map<KeyView, Seq<Seq<char>>>, key: KeyView, title: Seq<char>) -> Seq<Seq<char>> {
    if m.contains_key(key) && m[key].len() > 0 {
        seq!["### "@ + title, join_with(m[key].map_values(|v: Seq<char>| value_item(v)), "\n"@)]
    } else {
        Seq::empty()
    }
}

/// Whether the remarks of a form say something.
pub open spec fn has_remarks(remarks: Seq<char>) -> bool {
    trim(remarks).len() > 0 && trim(remarks) != "_No response_"@
}

/// The parts of a pull request body, joined with blank lines.
pub open spec fn pr_body_parts(
    issue_number: nat,
    author: Seq<char>,
    m: Map<KeyView, Seq<Seq<char>>>,
    remarks: Seq<char>,
    ws: Seq<Seq<char>>,
) -> Seq<Seq<char>> {
    seq!["### 歌词议题\n#"@ + decimal(issue_number), "### 歌词作者\n@"@ + author]
        + metadata_section(m, KeyView::Title, "音乐名称"@)
        + metadata_section(m, KeyView::Artist, "音乐作者"@)
        + metadata_section(m, KeyView::Album, "音乐专辑名称"@)
        + metadata_section(m, KeyView::NcmMusicId, "歌曲关联网易云音乐 ID"@)
        + metadata_section(m, KeyView::QqMusicId, "歌曲关联 QQ 音乐 ID"@)
        + metadata_section(m, KeyView::SpotifyId, "歌曲关联 Spotify ID"@)
        + metadata_section(m, KeyView::AppleMusicId, "歌曲关联 Apple Music ID"@)
        + (if has_remarks(remarks) {
        seq!["### 备注"@, remarks]
    } else {
        Seq::empty()
    }) + (if ws.len() > 0 {
        seq!["> [!WARNING]\n > 解析歌词文件时发现问题，详情如下:\n"@ + quoted_warnings(ws)]
    } else {
        Seq::empty()
    })
}

/// The values as list items in code style, one per line.
fn value_list(values: &Vec<String>) -> (r: String)
    ensures
        r@ == join_with(texts(values@).map_values(|v: Seq<char>| value_item(v)), "\n"@),
{
    let mut parts: Vec<String> = Vec::new();
    let mut i: usize = 0;
    while i < values.len()
        invariant
            i <= values@.len(),
            texts(parts@) == texts(values@).take(i as int).map_values(|v: Seq<char>| value_item(v)),
        decreases values@.len() - i,
    {
        let mut item = to_owned_string("- `");
        push_str(&mut item, values[i].as_str());
        push_str(&mut item, "`");
        let ghost before = texts(parts@);
        parts.push(item);
        assert(texts(parts@) =~= texts(values@).take(i + 1).map_values(|v: Seq<char>| value_item(v))) by {
            assert(texts(parts@) =~= before.push(item@));
        }
        i = i + 1;
    }
    assert(texts(values@).take(values@.len() as int) =~= texts(values@));
    join_strings(&parts, "\n")
}

/// Appends the section for the values of `key` (see `metadata_section`).
fn add_metadata_section(parts: &mut Vec<String>, store: &MetadataStore, title: &str, key: &CanonicalMetadataKey)
    requires
        store.wf(),
    ensures
        texts(final(parts)@) == texts(old(parts)@) + metadata_section(store@, key@, title@),
{
    let ghost before = texts(parts@);
    match store.get_multiple_values(key) {
        Some(values) => {
            if values.len() > 0 {
                let mut head = to_owned_string("### ");
                push_str(&mut head, title);
                parts.push(head);
                parts.push(value_list(values));
                assert(texts(parts@) =~= before + metadata_section(store@, key@, title@));
                return;
            }
        },
        None => {},
    }
    assert(texts(parts@) =~= before + metadata_section(store@, key@, title@));
}

/// The body of the pull request for a submission: the parts of
/// `pr_body_parts`, joined with blank lines.
pub fn build_pr_body(context: &PrContext) -> (r: String)
    requires
        context.metadata_store.wf(),
    ensures
        r@ == join_with(
            pr_body_parts(
                context.issue_number as nat,
                context.issue_author@,
                context.metadata_store@,
                context.remarks@,
                texts(context.warnings@),
            ),
            "\n\n"@,
        ),
{
    let store = context.metadata_store;
    let mut parts: Vec<String> = Vec::new();
    let mut first = to_owned_string("### 歌词议题\n#");
    push_decimal(&mut first, context.issue_number);
    parts.push(first);
    let mut second = to_owned_string("### 歌词作者\n@");
    push_str(&mut second, context.issue_author);
    parts.push(second);
    let ghost head = texts(parts@);
    assert(head =~= seq!["### 歌词议题\n#"@ + decimal(context.issue_number as nat), "### 歌词作者\n@"@ + context.issue_author@]);
    add_metadata_section(&mut parts, store, "音乐名称", &CanonicalMetadataKey::Title);
    add_metadata_section(&mut parts, store, "音乐作者", &CanonicalMetadataKey::Artist);
    add_metadata_section(&mut parts, store, "音乐专辑名称", &CanonicalMetadataKey::Album);
    add_metadata_section(&mut parts, store, "歌曲关联网易云音乐 ID", &CanonicalMetadataKey::NcmMusicId);
    add_metadata_section(&mut parts, store, "歌曲关联 QQ 音乐 ID", &CanonicalMetadataKey::QqMusicId);
    add_metadata_section(&mut parts, store, "歌曲关联 Spotify ID", &CanonicalMetadataKey::SpotifyId);
    add_metadata_section(&mut parts, store, "歌曲关联 Apple Music ID", &CanonicalMetadataKey::AppleMusicId);
    let ghost with_meta = texts(parts@);
    let trimmed = trim_string(context.remarks);
    if !text_is_empty(trimmed.as_str()) && !str_eq(trimmed.as_str(), "_No response_") {
        parts.push(to_owned_string("### 备注"));
        parts.push(to_owned_string(context.remarks));
    }
    let ghost with_remarks = texts(parts@);
    assert(with_remarks =~= with_meta + (if has_remarks(context.remarks@) {
        seq!["### 备注"@, context.remarks@]
    } else {
        Seq::<Seq<char>>::empty()
    }));
    if context.warnings.len() > 0 {
        let mut section = to_owned_string("> [!WARNING]\n > 解析歌词文件时发现问题，详情如下:\n");
        let list = quote_warnings(context.warnings);
        push_str(&mut section, list.as_str());
        parts.push(section);
    }
    assert(texts(parts@) =~= pr_body_parts(
        context.issue_number as nat,
        context.issue_author@,
        store@,
        context.remarks@,
        texts(context.warnings@),
    ));
    join_strings(&parts, "\n\n")
}

// ---------------------------------------------------------------------------
// A pull request body names its issue
// ---------------------------------------------------------------------------

/// Whether `s` holds no line break.
pub open spec fn no_newline(s: Seq<char>) -> bool {
    forall|i: int| 0 <= i < s.len() ==> s[i] != '\n'
}

/// Reading a text without line breaks after finished lines only extends the
/// line in progress.
proof fn lemma_lines_no_newline(x: Seq<char>, l: Seq<char>)
    requires
        lines_state(x).1.len() == 0,
        no_newline(l),
    ensures
        lines_state(x + l) == (lines_state(x).0, l),
    decreases l.len(),
{
    if l.len() == 0 {
        assert(x + l =~= x);
    } else {
        lemma_lines_no_newline(x, l.drop_last());
        assert((x + l).drop_last() =~= x + l.drop_last());
        assert((x + l).last() == l.last());
        assert(l.drop_last().push(l.last()) =~= l);
    }
}

/// Reading a line and its line break after finished lines adds that line.
proof fn lemma_lines_add_line(x: Seq<char>, l: Seq<char>)
    requires
        lines_state(x).1.len() == 0,
        no_newline(l),
    ensures
        lines_state(x + l + seq!['\n']) == (lines_state(x).0.push(strip_cr(l)), Seq::<char>::empty()),
{
    lemma_lines_no_newline(x, l);
    assert((x + l + seq!['\n']).drop_last() =~= x + l);
}

/// Reading more text keeps the lines already finished.
proof fn lemma_lines_prefix(p: Seq<char>, q: Seq<char>)
    ensures
        lines_state(p).0.len() <= lines_state(p + q).0.len(),
        lines_state(p + q).0.take(lines_state(p).0.len() as int) == lines_state(p).0,
    decreases q.len(),
{
    if q.len() == 0 {
        assert(p + q =~= p);
        assert(lines_state(p).0.take(lines_state(p).0.len() as int) =~= lines_state(p).0);
    } else {
        lemma_lines_prefix(p, q.drop_last());
        assert((p + q).drop_last() =~= p + q.drop_last());
        let before = lines_state(p + q.drop_last()).0;
        let n = lines_state(p).0.len() as int;
        assert(before.push(strip_cr(lines_state(p + q.drop_last()).1)).take(n) =~= before.take(n));
    }
}

/// The lines of a text that starts with two lines keep them first.
proof fn lemma_first_two_lines(a: Seq<char>, b: Seq<char>, rest: Seq<char>)
    requires
        no_newline(a),
        no_newline(b),
    ensures
        text_lines(a + seq!['\n'] + b + seq!['\n'] + rest).len() >= 2,
        text_lines(a + seq!['\n'] + b + seq!['\n'] + rest)[0] == strip_cr(a),
        text_lines(a + seq!['\n'] + b + seq!['\n'] + rest)[1] == strip_cr(b),
{
    let e = Seq::<char>::empty();
    assert(lines_state(e) == (Seq::<Seq<char>>::empty(), Seq::<char>::empty()));
    lemma_lines_add_line(e, a);
    assert(e + a + seq!['\n'] =~= a + seq!['\n']);
    let x = a + seq!['\n'];
    lemma_lines_add_line(x, b);
    let y = x + b + seq!['\n'];
    assert(lines_state(y).0 =~= seq![strip_cr(a), strip_cr(b)]);
    lemma_lines_prefix(y, rest);
    assert(y + rest =~= a + seq!['\n'] + b + seq!['\n'] + rest);
    let full = lines_state(y + rest);
    assert(full.0.take(2) =~= seq![strip_cr(a), strip_cr(b)]);
    assert(full.0[0] == strip_cr(a));
    assert(full.0[1] == strip_cr(b));
}

/// A text whose first and last characters are not whitespace is its own trim.
proof fn lemma_trim_keeps(s: Seq<char>)
    requires
        s.len() > 0,
        !is_ws(s[0]),
        !is_ws(s.last()),
    ensures
        trim(s) == s,
{
    assert(!in_class(CharClass::Whitespace, s[0]));
    assert(strip_start(s, CharClass::Whitespace) == s);
    assert(!in_class(CharClass::Whitespace, s.last()));
    assert(strip_end(s, CharClass::Whitespace) == s);
}

/// The join of two or more parts starts with the first part and a separator.
proof fn lemma_join_starts(parts: Seq<Seq<char>>, sep: Seq<char>)
    requires
        parts.len() >= 2,
    ensures
        join_with(parts, sep) == parts[0] + sep + join_with(parts, sep).skip((parts[0].len() + sep.len()) as int),
    decreases parts.len(),
{
    let j = join_with(parts, sep);
    if parts.len() == 2 {
        assert(parts.drop_last() =~= seq![parts[0]]);
        assert(join_with(parts.drop_last(), sep) == parts[0]);
        assert(j =~= parts[0] + sep + j.skip((parts[0].len() + sep.len()) as int));
    } else {
        lemma_join_starts(parts.drop_last(), sep);
        let i = join_with(parts.drop_last(), sep);
        assert(parts.drop_last()[0] == parts[0]);
        assert(j == i + sep + parts.last());
        assert(j =~= parts[0] + sep + j.skip((parts[0].len() + sep.len()) as int));
    }
}

/// A pull request body written for an issue names that issue: reading the
/// issue number back from the body (see `issue_number_in`) gives the
/// number it was written with, whatever the rest of the body holds.
pub proof fn lemma_pr_body_names_issue(
    issue_number: u64,
    author: Seq<char>,
    m: Map<KeyView, Seq<Seq<char>>>,
    remarks: Seq<char>,
    ws: Seq<Seq<char>>,
)
    ensures
        issue_number_in(text_lines(join_with(pr_body_parts(issue_number as nat, author, m, remarks, ws), "\n\n"@)))
            == Some(issue_number as nat),
{
    reveal_strlit("### 歌词议题\n#");
    reveal_strlit("\n\n");
    let parts = pr_body_parts(issue_number as nat, author, m, remarks, ws);
    let head = seq!["### 歌词议题\n#"@ + decimal(issue_number as nat), "### 歌词作者\n@"@ + author];
    assert(parts.len() >= 2 && parts[0] == head[0]) by {
        assert(parts.take(2) =~= head) by {
            assert(parts == head + parts.skip(2));
        }
    }
    lemma_join_starts(parts, "\n\n"@);
    let body = join_with(parts, "\n\n"@);
    let d = decimal(issue_number as nat);
    lemma_decimal_digits(issue_number as nat);
    crate::text::lemma_decimal_len(issue_number as nat);
    let a = "### 歌词议题\n#"@.take(8);
    let b = seq!['#'] + d;
    let rest = seq!['\n'] + body.skip((parts[0].len() + 2) as int);
    assert(body =~= a + seq!['\n'] + b + seq!['\n'] + rest);
    assert(no_newline(b)) by {
        assert forall|i: int| 0 <= i < b.len() implies b[i] != '\n' by {
            if i > 0 {
                assert(b[i] == d[i - 1]);
                assert(is_digit(d[i - 1]));
            }
        }
    }
    lemma_first_two_lines(a, b, rest);
    let ls = text_lines(body);
    assert(strip_cr(a) == a);
    assert(strip_cr(b) == b) by {
        assert(is_digit(b.last()));
    }
    lemma_trim_keeps(a);
    assert(!is_ws(b.last())) by {
        assert(is_digit(b.last()));
    }
    lemma_trim_keeps(b);
    assert(parse_u64_spec(a.drop_first()) is None) by {
        assert(!is_digit(a.drop_first()[0]));
        assert(!all_digits(a.drop_first()));
    }
    assert(b.drop_first() =~= d);
    lemma_parse_digits(d);
    assert(ls.drop_first()[0] == b);
    assert(issue_number_in(ls.drop_first()) == Some(issue_number as nat));
}

} // verus!
