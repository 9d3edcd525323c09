//! Metadata keys and the metadata store.

use vstd::prelude::*;

use crate::text::{str_eq, text_is_empty, texts, to_owned_string, trim, trim_string};
use crate::types::ParseCanonicalMetadataKeyError;

verus! {

// ---------------------------------------------------------------------------
// Canonical keys
// ---------------------------------------------------------------------------

/// The canonical metadata keys.
#[derive(Debug)]
pub enum CanonicalMetadataKey {
    /// Song title.
    Title,
    /// Artist.
    Artist,
    /// Album.
    Album,
    /// Language code of the main lyrics (BCP 47).
    Language,
    /// Global time offset in milliseconds.
    Offset,
    /// Songwriter.
    Songwriter,
    /// NetEase Cloud Music id.
    NcmMusicId,
    /// QQ Music id.
    QqMusicId,
    /// Spotify id.
    SpotifyId,
    /// Apple Music id.
    AppleMusicId,
    /// International Standard Recording Code.
    Isrc,
    /// GitHub id of the lyric author.
    TtmlAuthorGithub,
    /// GitHub login of the lyric author.
    TtmlAuthorGithubLogin,
    /// Any other key.
    Custom(String),
}

/// The mathematical value of a canonical key.
pub enum KeyView {
    Title,
    Artist,
    Album,
    Language,
    Offset,
    Songwriter,
    NcmMusicId,
    QqMusicId,
    SpotifyId,
    AppleMusicId,
    Isrc,
    TtmlAuthorGithub,
    TtmlAuthorGithubLogin,
    Custom(Seq<char>),
}

impl View for CanonicalMetadataKey {
    type V = KeyView;

    open spec fn view(&self) -> KeyView {
        match self {
            CanonicalMetadataKey::Title => KeyView::Title,
            CanonicalMetadataKey::Artist => KeyView::Artist,
            CanonicalMetadataKey::Album => KeyView::Album,
            CanonicalMetadataKey::Language => KeyView::Language,
            CanonicalMetadataKey::Offset => KeyView::Offset,
            CanonicalMetadataKey::Songwriter => KeyView::Songwriter,
            CanonicalMetadataKey::NcmMusicId => KeyView::NcmMusicId,
            CanonicalMetadataKey::QqMusicId => KeyView::QqMusicId,
            CanonicalMetadataKey::SpotifyId => KeyView::SpotifyId,
            CanonicalMetadataKey::AppleMusicId => KeyView::AppleMusicId,
            CanonicalMetadataKey::Isrc => KeyView::Isrc,
            CanonicalMetadataKey::TtmlAuthorGithub => KeyView::TtmlAuthorGithub,
            CanonicalMetadataKey::TtmlAuthorGithubLogin => KeyView::TtmlAuthorGithubLogin,
            CanonicalMetadataKey::Custom(s) => KeyView::Custom(s@),
        }
    }
}

/// The lowercase form of a text, as `str::to_lowercase` computes it
/// (Unicode lowercase mapping).
pub uninterp spec fn lowercase(s: Seq<char>) -> Seq<char>;

/// Whether every character of a text is ASCII.
pub open spec fn ascii_text(s: Seq<char>) -> bool {
    forall|i: int| 0 <= i < s.len() ==> (#[trigger] s[i] as u32) < 128
}

/// The lowercase form of an ASCII character.
pub open spec fn ascii_lower(c: char) -> char {
    if 'A' <= c && c <= 'Z' {
        ((c as u32) + 32) as char
    } else {
        c
    }
}

/// `str::to_lowercase`. Claimed: the result is named by `lowercase`, and
/// an ASCII text has its capital letters made small and nothing else
/// changed (the Unicode lowercase mapping of ASCII characters).
#[verifier::external_body]
fn to_lowercase(s: &str) -> (r: String)
    ensures
        r@ == lowercase(s@),
        ascii_text(s@) ==> r@ == s@.map_values(|c: char| ascii_lower(c)),
{
    s.to_lowercase()
}

/// The key that a lowercased key name stands for.
pub open spec fn key_for_lowercase(l: Seq<char>) -> KeyView {
    if l == "ti"@ || l == "title"@ || l == "musicname"@ {
        KeyView::Title
    } else if l == "ar"@ || l == "artist"@ || l == "artists"@ {
        KeyView::Artist
    } else if l == "al"@ || l == "album"@ {
        KeyView::Album
    } else if l == "by"@ || l == "ttmlauthorgithublogin"@ {
        KeyView::TtmlAuthorGithubLogin
    } else if l == "language"@ || l == "lang"@ {
        KeyView::Language
    } else if l == "offset"@ {
        KeyView::Offset
    } else if l == "songwriter"@ || l == "songwriters"@ {
        KeyView::Songwriter
    } else if l == "ncmmusicid"@ {
        KeyView::NcmMusicId
    } else if l == "qqmusicid"@ {
        KeyView::QqMusicId
    } else if l == "spotifyid"@ {
        KeyView::SpotifyId
    } else if l == "applemusicid"@ {
        KeyView::AppleMusicId
    } else if l == "isrc"@ {
        KeyView::Isrc
    } else if l == "ttmlauthorgithub"@ {
        KeyView::TtmlAuthorGithub
    } else {
        KeyView::Custom(l)
    }
}

/// A text with its ASCII capitals made small.
pub open spec fn ascii_lowered(s: Seq<char>) -> Seq<char> {
    s.map_values(|c: char| ascii_lower(c))
}

/// Reading a key's display name back, in any letter case, gives the key:
/// every spelling of a canonical key's name that lowers to the same text
/// parses to that key, never to a custom one.
pub proof fn lemma_display_name_parses_back(k: KeyView, name: Seq<char>)
    requires
        !(k is Custom),
        ascii_lowered(name) == ascii_lowered(key_display(k)),
    ensures
        key_for_lowercase(ascii_lowered(name)) == k,
        ascii_lowered(name).len() > 0,
{
    reveal_strlit("Title");
    reveal_strlit("Artist");
    reveal_strlit("Album");
    reveal_strlit("Language");
    reveal_strlit("Offset");
    reveal_strlit("Songwriter");
    reveal_strlit("NcmMusicId");
    reveal_strlit("QqMusicId");
    reveal_strlit("SpotifyId");
    reveal_strlit("AppleMusicId");
    reveal_strlit("Isrc");
    reveal_strlit("TtmlAuthorGithub");
    reveal_strlit("TtmlAuthorGithubLogin");
    reveal_strlit("ti");
    reveal_strlit("title");
    reveal_strlit("musicname");
    reveal_strlit("ar");
    reveal_strlit("artist");
    reveal_strlit("artists");
    reveal_strlit("al");
    reveal_strlit("album");
    reveal_strlit("by");
    reveal_strlit("ttmlauthorgithublogin");
    reveal_strlit("language");
    reveal_strlit("lang");
    reveal_strlit("offset");
    reveal_strlit("songwriter");
    reveal_strlit("songwriters");
    reveal_strlit("ncmmusicid");
    reveal_strlit("qqmusicid");
    reveal_strlit("spotifyid");
    reveal_strlit("applemusicid");
    reveal_strlit("isrc");
    reveal_strlit("ttmlauthorgithub");
    let l = ascii_lowered(key_display(k));
    match k {
        KeyView::Title => {
            assert(l =~= "title"@);
            assert(l.len() == 5 && l[0] == 't');
            assert(key_for_lowercase(l) == k);
        },
        KeyView::Artist => {
            assert(l =~= "artist"@);
            assert(l.len() == 6 && l[0] == 'a');
            assert(key_for_lowercase(l) == k);
        },
        KeyView::Album => {
            assert(l =~= "album"@);
            assert(l.len() == 5 && l[0] == 'a');
            assert(key_for_lowercase(l) == k);
        },
        KeyView::Language => {
            assert(l =~= "language"@);
            assert(l.len() == 8 && l[0] == 'l');
            assert(key_for_lowercase(l) == k);
        },
        KeyView::Offset => {
            assert(l =~= "offset"@);
            assert(l.len() == 6 && l[0] == 'o');
            assert(key_for_lowercase(l) == k);
        },
        KeyView::Songwriter => {
            assert(l =~= "songwriter"@);
            assert(l.len() == 10 && l[0] == 's');
            assert(key_for_lowercase(l) == k);
        },
        KeyView::NcmMusicId => {
            assert(l =~= "ncmmusicid"@);
            assert(l.len() == 10 && l[0] == 'n');
            assert(key_for_lowercase(l) == k);
        },
        KeyView::QqMusicId => {
            assert(l =~= "qqmusicid"@);
            assert(l.len() == 9 && l[0] == 'q');
            assert(key_for_lowercase(l) == k);
        },
        KeyView::SpotifyId => {
            assert(l =~= "spotifyid"@);
            assert(l.len() == 9 && l[0] == 's');
            assert(key_for_lowercase(l) == k);
        },
        KeyView::AppleMusicId => {
            assert(l =~= "applemusicid"@);
            assert(l.len() == 12 && l[0] == 'a');
            assert(key_for_lowercase(l) == k);
        },
        KeyView::Isrc => {
            assert(l =~= "isrc"@);
            assert(l.len() == 4 && l[0] == 'i');
            assert(key_for_lowercase(l) == k);
        },
        KeyView::TtmlAuthorGithub => {
            assert(l =~= "ttmlauthorgithub"@);
            assert(l.len() == 16 && l[0] == 't');
            assert(key_for_lowercase(l) == k);
        },
        KeyView::TtmlAuthorGithubLogin => {
            assert(l =~= "ttmlauthorgithublogin"@);
            assert(l.len() == 21 && l[0] == 't');
            assert(key_for_lowercase(l) == k);
        },
        KeyView::Custom(_) => {},
    }
}

/// The key a metadata name is stored under: the parsed key, or the name
/// itself as a custom key when it cannot be parsed.
pub open spec fn store_key(name: Seq<char>) -> KeyView {
    if lowercase(name).len() == 0 {
        KeyView::Custom(name)
    } else {
        key_for_lowercase(lowercase(name))
    }
}

/// The keys that are published in serialised metadata.
pub open spec fn key_is_public(k: KeyView) -> bool {
    match k {
        KeyView::Title | KeyView::Artist | KeyView::Album | KeyView::NcmMusicId
        | KeyView::QqMusicId | KeyView::SpotifyId | KeyView::AppleMusicId | KeyView::Isrc
        | KeyView::TtmlAuthorGithub | KeyView::TtmlAuthorGithubLogin => true,
        _ => false,
    }
}

/// The display name of a key.
pub open spec fn key_display(k: KeyView) -> Seq<char> {
    match k {
        KeyView::Title => "Title"@,
        KeyView::Artist => "Artist"@,
        KeyView::Album => "Album"@,
        KeyView::Language => "Language"@,
        KeyView::Offset => "Offset"@,
        KeyView::Songwriter => "Songwriter"@,
        KeyView::NcmMusicId => "NcmMusicId"@,
        KeyView::QqMusicId => "QqMusicId"@,
        KeyView::SpotifyId => "SpotifyId"@,
        KeyView::AppleMusicId => "AppleMusicId"@,
        KeyView::Isrc => "Isrc"@,
        KeyView::TtmlAuthorGithub => "TtmlAuthorGithub"@,
        KeyView::TtmlAuthorGithubLogin => "TtmlAuthorGithubLogin"@,
        KeyView::Custom(s) => s,
    }
}

impl CanonicalMetadataKey {
    /// Parses a metadata key name, case-insensitively; any other non-empty
    /// name becomes a custom key (in lowercase). Only a name whose lowercase
    /// form is empty is refused.
    pub fn from_str(s: &str) -> (r: Result<CanonicalMetadataKey, ParseCanonicalMetadataKeyError>)
        ensures
            lowercase(s@).len() == 0 <==> r is Err,
            r matches Ok(k) ==> k@ == key_for_lowercase(lowercase(s@)),
            r matches Err(e) ==> e.0@ == s@,
            ascii_text(s@) ==> lowercase(s@) == s@.map_values(|c: char| ascii_lower(c)),
            forall|k: KeyView|
                !(k is Custom) && ascii_text(s@) && ascii_lowered(s@) == #[trigger] ascii_lowered(key_display(k))
                    ==> (r matches Ok(key) && key@ == k),
    {
        let l = to_lowercase(s);
        proof {
            if ascii_text(s@) {
                assert(l@ =~= ascii_lowered(s@));
                assert forall|k: KeyView|
                    !(k is Custom) && ascii_lowered(s@) == #[trigger] ascii_lowered(key_display(k)) implies key_for_lowercase(
                    l@,
                ) == k && l@.len() > 0 by {
                    lemma_display_name_parses_back(k, s@);
                }
            }
        }
        let t = l.as_str();
        if text_is_empty(t) {
            return Err(ParseCanonicalMetadataKeyError(to_owned_string(s)));
        }
        if str_eq(t, "ti") || str_eq(t, "title") || str_eq(t, "musicname") {
            Ok(CanonicalMetadataKey::Title)
        } else if str_eq(t, "ar") || str_eq(t, "artist") || str_eq(t, "artists") {
            Ok(CanonicalMetadataKey::Artist)
        } else if str_eq(t, "al") || str_eq(t, "album") {
            Ok(CanonicalMetadataKey::Album)
        } else if str_eq(t, "by") || str_eq(t, "ttmlauthorgithublogin") {
            Ok(CanonicalMetadataKey::TtmlAuthorGithubLogin)
        } else if str_eq(t, "language") || str_eq(t, "lang") {
            Ok(CanonicalMetadataKey::Language)
        } else if str_eq(t, "offset") {
            Ok(CanonicalMetadataKey::Offset)
        } else if str_eq(t, "songwriter") || str_eq(t, "songwriters") {
            Ok(CanonicalMetadataKey::Songwriter)
        } else if str_eq(t, "ncmmusicid") {
            Ok(CanonicalMetadataKey::NcmMusicId)
        } else if str_eq(t, "qqmusicid") {
            Ok(CanonicalMetadataKey::QqMusicId)
        } else if str_eq(t, "spotifyid") {
            Ok(CanonicalMetadataKey::SpotifyId)
        } else if str_eq(t, "applemusicid") {
            Ok(CanonicalMetadataKey::AppleMusicId)
        } else if str_eq(t, "isrc") {
            Ok(CanonicalMetadataKey::Isrc)
        } else if str_eq(t, "ttmlauthorgithub") {
            Ok(CanonicalMetadataKey::TtmlAuthorGithub)
        } else {
            Ok(CanonicalMetadataKey::Custom(l))
        }
    }

    /// The key a metadata name is stored under: the parsed key, or a custom
    /// key holding the name itself when the name cannot be parsed.
    pub fn for_name(name: &str) -> (r: CanonicalMetadataKey)
        ensures
            r@ == store_key(name@),
    {
        match CanonicalMetadataKey::from_str(name) {
            Ok(k) => k,
            Err(_) => CanonicalMetadataKey::Custom(to_owned_string(name)),
        }
    }

    /// Whether the key is published in serialised metadata.
    pub fn is_public(&self) -> (r: bool)
        ensures
            r == key_is_public(self@),
    {
        match self {
            CanonicalMetadataKey::Title | CanonicalMetadataKey::Artist
            | CanonicalMetadataKey::Album | CanonicalMetadataKey::NcmMusicId
            | CanonicalMetadataKey::QqMusicId | CanonicalMetadataKey::SpotifyId
            | CanonicalMetadataKey::AppleMusicId | CanonicalMetadataKey::Isrc
            | CanonicalMetadataKey::TtmlAuthorGithub
            | CanonicalMetadataKey::TtmlAuthorGithubLogin => true,
            _ => false,
        }
    }

    /// The display name of the key (its variant name, or the custom text).
    pub fn to_display_string(&self) -> (r: String)
        ensures
            r@ == key_display(self@),
    {
        match self {
            CanonicalMetadataKey::Title => String::from_str("Title"),
            CanonicalMetadataKey::Artist => String::from_str("Artist"),
            CanonicalMetadataKey::Album => String::from_str("Album"),
            CanonicalMetadataKey::Language => String::from_str("Language"),
            CanonicalMetadataKey::Offset => String::from_str("Offset"),
            CanonicalMetadataKey::Songwriter => String::from_str("Songwriter"),
            CanonicalMetadataKey::NcmMusicId => String::from_str("NcmMusicId"),
            CanonicalMetadataKey::QqMusicId => String::from_str("QqMusicId"),
            CanonicalMetadataKey::SpotifyId => String::from_str("SpotifyId"),
            CanonicalMetadataKey::AppleMusicId => String::from_str("AppleMusicId"),
            CanonicalMetadataKey::Isrc => String::from_str("Isrc"),
            CanonicalMetadataKey::TtmlAuthorGithub => String::from_str("TtmlAuthorGithub"),
            CanonicalMetadataKey::TtmlAuthorGithubLogin => String::from_str(
                "TtmlAuthorGithubLogin",
            ),
            CanonicalMetadataKey::Custom(s) => s.clone(),
        }
    }

    /// Whether two keys are the same key.
    pub fn same_as(&self, other: &CanonicalMetadataKey) -> (r: bool)
        ensures
            r == (self@ == other@),
    {
        match (self, other) {
            (CanonicalMetadataKey::Title, CanonicalMetadataKey::Title) => true,
            (CanonicalMetadataKey::Artist, CanonicalMetadataKey::Artist) => true,
            (CanonicalMetadataKey::Album, CanonicalMetadataKey::Album) => true,
            (CanonicalMetadataKey::Language, CanonicalMetadataKey::Language) => true,
            (CanonicalMetadataKey::Offset, CanonicalMetadataKey::Offset) => true,
            (CanonicalMetadataKey::Songwriter, CanonicalMetadataKey::Songwriter) => true,
            (CanonicalMetadataKey::NcmMusicId, CanonicalMetadataKey::NcmMusicId) => true,
            (CanonicalMetadataKey::QqMusicId, CanonicalMetadataKey::QqMusicId) => true,
            (CanonicalMetadataKey::SpotifyId, CanonicalMetadataKey::SpotifyId) => true,
            (CanonicalMetadataKey::AppleMusicId, CanonicalMetadataKey::AppleMusicId) => true,
            (CanonicalMetadataKey::Isrc, CanonicalMetadataKey::Isrc) => true,
            (CanonicalMetadataKey::TtmlAuthorGithub, CanonicalMetadataKey::TtmlAuthorGithub) => true,
            (
                CanonicalMetadataKey::TtmlAuthorGithubLogin,
                CanonicalMetadataKey::TtmlAuthorGithubLogin,
            ) => true,
            (CanonicalMetadataKey::Custom(a), CanonicalMetadataKey::Custom(b)) => *a == *b,
            _ => false,
        }
    }

    /// A copy of the key.
    pub fn copy_key(&self) -> (r: CanonicalMetadataKey)
        ensures
            r@ == self@,
    {
        match self {
            CanonicalMetadataKey::Title => CanonicalMetadataKey::Title,
            CanonicalMetadataKey::Artist => CanonicalMetadataKey::Artist,
            CanonicalMetadataKey::Album => CanonicalMetadataKey::Album,
            CanonicalMetadataKey::Language => CanonicalMetadataKey::Language,
            CanonicalMetadataKey::Offset => CanonicalMetadataKey::Offset,
            CanonicalMetadataKey::Songwriter => CanonicalMetadataKey::Songwriter,
            CanonicalMetadataKey::NcmMusicId => CanonicalMetadataKey::NcmMusicId,
            CanonicalMetadataKey::QqMusicId => CanonicalMetadataKey::QqMusicId,
            CanonicalMetadataKey::SpotifyId => CanonicalMetadataKey::SpotifyId,
            CanonicalMetadataKey::AppleMusicId => CanonicalMetadataKey::AppleMusicId,
            CanonicalMetadataKey::Isrc => CanonicalMetadataKey::Isrc,
            CanonicalMetadataKey::TtmlAuthorGithub => CanonicalMetadataKey::TtmlAuthorGithub,
            CanonicalMetadataKey::TtmlAuthorGithubLogin => CanonicalMetadataKey::TtmlAuthorGithubLogin,
            CanonicalMetadataKey::Custom(s) => CanonicalMetadataKey::Custom(s.clone()),
        }
    }
}

// ---------------------------------------------------------------------------
// String sequences
// ---------------------------------------------------------------------------


/// A copy of a list of strings.
pub fn copy_strings(v: &Vec<String>) -> (r: Vec<String>)
    ensures
        texts(r@) == texts(v@),
        r@.len() == v@.len(),
        forall|k: int| 0 <= k < v@.len() ==> #[trigger] r@[k]@ == v@[k]@,
{
    let mut r: Vec<String> = Vec::new();
    let mut i: usize = 0;
    while i < v.len()
        invariant
            i <= v@.len(),
            r@.len() == i,
            forall|k: int| 0 <= k < i ==> #[trigger] r@[k]@ == v@[k]@,
        decreases v@.len() - i,
    {
        r.push(v[i].clone());
        i = i + 1;
    }
    assert(texts(r@) =~= texts(v@));
    r
}

/// Code-point order of texts: `a` comes strictly before `b`.
pub open spec fn text_lt(a: Seq<char>, b: Seq<char>) -> bool
    decreases a.len(),
{
    if b.len() == 0 {
        false
    } else if a.len() == 0 {
        true
    } else if a[0] != b[0] {
        a[0] < b[0]
    } else {
        text_lt(a.drop_first(), b.drop_first())
    }
}

/// Code-point order is irreflexive.
pub proof fn lemma_text_lt_irrefl(a: Seq<char>)
    ensures
        !text_lt(a, a),
    decreases a.len(),
{
    if a.len() > 0 {
        lemma_text_lt_irrefl(a.drop_first());
    }
}

/// Code-point order is a strict total order on texts.
pub proof fn lemma_text_lt_total(a: Seq<char>, b: Seq<char>)
    ensures
        a == b || text_lt(a, b) || text_lt(b, a),
        !(text_lt(a, b) && text_lt(b, a)),
    decreases a.len(),
{
    if a.len() == 0 && b.len() == 0 {
        assert(a =~= b);
    } else if a.len() > 0 && b.len() > 0 {
        if a[0] == b[0] {
            lemma_text_lt_total(a.drop_first(), b.drop_first());
            if a.drop_first() == b.drop_first() {
                assert forall|i: int| 0 <= i < a.len() implies a[i] == b[i] by {
                    if i > 0 {
                        assert(a[i] == a.drop_first()[i - 1]);
                        assert(b[i] == b.drop_first()[i - 1]);
                    }
                }
                assert(a =~= b);
            }
        } else {
        }
    }
}

/// Code-point order is transitive.
pub proof fn lemma_text_lt_trans(a: Seq<char>, b: Seq<char>, c: Seq<char>)
    requires
        text_lt(a, b),
        text_lt(b, c),
    ensures
        text_lt(a, c),
    decreases a.len(),
{
    if a.len() > 0 && a[0] == b[0] && b[0] == c[0] {
        lemma_text_lt_trans(a.drop_first(), b.drop_first(), c.drop_first());
    }
}

/// Compares two texts in code-point order.
pub fn text_less(a: &str, b: &str) -> (r: bool)
    ensures
        r == text_lt(a@, b@),
{
    let x = crate::text::chars_of(a);
    let y = crate::text::chars_of(b);
    let mut i: usize = 0;
    assert(x@.skip(0) =~= x@);
    assert(y@.skip(0) =~= y@);
    while i < x.len() && i < y.len() && x[i] == y[i]
        invariant
            i <= x@.len(),
            i <= y@.len(),
            text_lt(x@, y@) == text_lt(x@.skip(i as int), y@.skip(i as int)),
        decreases x@.len() - i,
    {
        assert(x@.skip(i as int).drop_first() =~= x@.skip(i + 1));
        assert(y@.skip(i as int).drop_first() =~= y@.skip(i + 1));
        i = i + 1;
    }
    if i == y.len() {
        false
    } else if i == x.len() {
        true
    } else {
        assert(x@.skip(i as int)[0] == x@[i as int]);
        assert(y@.skip(i as int)[0] == y@[i as int]);
        let cx = x[i];
        let cy = y[i];
        cx < cy
    }
}

/// Strictly increasing in code-point order.
pub open spec fn strictly_sorted(s: Seq<Seq<char>>) -> bool {
    forall|i: int, j: int| 0 <= i < j < s.len() ==> text_lt(#[trigger] s[i], #[trigger] s[j])
}

/// A strictly sorted list holds no value twice.
pub proof fn lemma_strictly_sorted_distinct(s: Seq<Seq<char>>)
    requires
        strictly_sorted(s),
    ensures
        forall|i: int, j: int| 0 <= i < j < s.len() ==> s[i] != s[j],
{
    assert forall|i: int, j: int| 0 <= i < j < s.len() implies s[i] != s[j] by {
        assert(text_lt(s[i], s[j]));
        lemma_text_lt_irrefl(s[i]);
    }
}

/// Inserts a text into a strictly sorted list, unless it is already there.
fn insert_sorted_unique(v: &mut Vec<String>, x: String)
    requires
        strictly_sorted(texts(old(v)@)),
    ensures
        strictly_sorted(texts(final(v)@)),
        texts(final(v)@).to_set() == texts(old(v)@).to_set().insert(x@),
{
    let ghost old_t = texts(v@);
    let mut i: usize = 0;
    while i < v.len() && text_less(v[i].as_str(), x.as_str())
        invariant
            i <= v@.len(),
            texts(v@) == old_t,
            strictly_sorted(old_t),
            forall|k: int| 0 <= k < i ==> text_lt(#[trigger] old_t[k], x@),
        decreases v@.len() - i,
    {
        assert(old_t[i as int] == v@[i as int]@);
        i = i + 1;
    }
    if i < v.len() && v[i] == x {
        assert(old_t[i as int] == x@);
        assert(old_t.to_set() =~= old_t.to_set().insert(x@)) by {
            assert(old_t.contains(x@));
        }
        return;
    }
    proof {
        if i < v@.len() {
            assert(old_t[i as int] == v@[i as int]@);
            lemma_text_lt_total(old_t[i as int], x@);
        }
    }
    v.insert(i, x);
    let ghost new_t = texts(v@);
    assert(new_t =~= old_t.insert(i as int, x@));
    assert forall|a: int, b: int| 0 <= a < b < new_t.len() implies text_lt(#[trigger] new_t[a], #[trigger] new_t[b]) by {
        if b < i {
        } else if b == i {
        } else if a < i {
            assert(new_t[b] == old_t[b - 1]);
            if b - 1 > i {
                assert(text_lt(old_t[i as int], old_t[b - 1]));
                lemma_text_lt_trans(x@, old_t[i as int], old_t[b - 1]);
            }
            lemma_text_lt_trans(new_t[a], x@, new_t[b]);
        } else if a == i {
            assert(new_t[b] == old_t[b - 1]);
            if b - 1 > i {
                lemma_text_lt_trans(x@, old_t[i as int], old_t[b - 1]);
            }
        } else {
            assert(new_t[a] == old_t[a - 1]);
            assert(new_t[b] == old_t[b - 1]);
        }
    }
    assert(new_t.to_set() =~= old_t.to_set().insert(x@)) by {
        assert forall|t: Seq<char>| new_t.to_set().contains(t) <==> old_t.to_set().insert(x@).contains(t) by {
            if new_t.contains(t) {
                let k = choose|k: int| 0 <= k < new_t.len() && new_t[k] == t;
                if k < i {
                    assert(old_t[k] == t);
                } else if k > i {
                    assert(old_t[k - 1] == t);
                }
            }
            if old_t.contains(t) {
                let k = choose|k: int| 0 <= k < old_t.len() && old_t[k] == t;
                if k < i {
                    assert(new_t[k] == t);
                } else {
                    assert(new_t[k + 1] == t);
                }
            }
            if t == x@ {
                assert(new_t[i as int] == t);
            }
        }
    }
}

// ---------------------------------------------------------------------------
// The store
// ---------------------------------------------------------------------------

/// A central container that stores, manages and normalises metadata.
#[derive(Debug)]
pub struct MetadataStore {
    /// Every key with all its values; each key at most once.
    data: Vec<(CanonicalMetadataKey, Vec<String>)>,
}

/// The position of the entry for key `k`.
pub open spec fn entry_index(d: Seq<(CanonicalMetadataKey, Vec<String>)>, k: KeyView) -> Option<int>
    decreases d.len(),
{
    if d.len() == 0 {
        None
    } else if d.last().0@ == k {
        Some(d.len() - 1)
    } else {
        entry_index(d.drop_last(), k)
    }
}

/// What `entry_index` returns.
pub proof fn lemma_entry_index(d: Seq<(CanonicalMetadataKey, Vec<String>)>, k: KeyView)
    ensures
        match entry_index(d, k) {
            Some(i) => 0 <= i < d.len() && d[i].0@ == k,
            None => forall|j: int| 0 <= j < d.len() ==> #[trigger] d[j].0@ != k,
        },
    decreases d.len(),
{
    if d.len() > 0 {
        lemma_entry_index(d.drop_last(), k);
        if d.last().0@ != k {
            assert forall|j: int| 0 <= j < d.len() - 1 implies d[j] == d.drop_last()[j] by {}
        }
    }
}

/// The mapping from keys to their values held by entries `d`.
pub open spec fn entries_map(d: Seq<(CanonicalMetadataKey, Vec<String>)>) -> Map<KeyView, Seq<Seq<char>>> {
    Map::new(|k: KeyView| entry_index(d, k) is Some, |k: KeyView| texts(d[entry_index(d, k).unwrap()].1@))
}

/// No key occurs twice.
pub open spec fn keys_distinct(d: Seq<(CanonicalMetadataKey, Vec<String>)>) -> bool {
    forall|i: int, j: int|
        0 <= i < d.len() && 0 <= j < d.len() && i != j ==> #[trigger] d[i].0@ != #[trigger] d[j].0@
}

/// With distinct keys, an entry is found at its own position.
pub proof fn lemma_entry_index_of(d: Seq<(CanonicalMetadataKey, Vec<String>)>, i: int)
    requires
        keys_distinct(d),
        0 <= i < d.len(),
    ensures
        entry_index(d, d[i].0@) == Some(i),
{
    lemma_entry_index(d, d[i].0@);
    let j = entry_index(d, d[i].0@).unwrap();
    if j != i {
        assert(d[j].0@ == d[i].0@);
    }
}

/// Output entry `out` shows entry `j` (one of the first `n`) of `d`, a public key.
pub open spec fn from_entry(
    out: (String, Vec<String>),
    d: Seq<(CanonicalMetadataKey, Vec<String>)>,
    j: int,
    n: int,
) -> bool {
    &&& 0 <= j < n
    &&& j < d.len()
    &&& key_is_public(d[j].0@)
    &&& out.0@ == key_display(d[j].0@)
    &&& texts(out.1@) == texts(d[j].1@)
}

/// Output entry `out` is the display name and the values of a public key of `m`.
pub open spec fn shows_public_entry(m: Map<KeyView, Seq<Seq<char>>>, out: (String, Vec<String>)) -> bool {
    exists|key: KeyView|
        #[trigger] m.contains_key(key) && key_is_public(key) && out.0@ == key_display(key) && texts(out.1@) == m[key]
}

/// The metadata `m` after `add(key, value)`: the value, trimmed, is
/// appended to the key's values unless it is blank.
pub open spec fn add_one(m: Map<KeyView, Seq<Seq<char>>>, key: Seq<char>, value: Seq<char>) -> Map<KeyView, Seq<Seq<char>>> {
    if trim(value).len() == 0 {
        m
    } else {
        m.insert(store_key(key), if m.contains_key(store_key(key)) {
            m[store_key(key)].push(trim(value))
        } else {
            seq![trim(value)]
        })
    }
}

/// The metadata `m` after adding each of `values` under `key` in order.
pub open spec fn added(m: Map<KeyView, Seq<Seq<char>>>, key: Seq<char>, values: Seq<Seq<char>>) -> Map<KeyView, Seq<Seq<char>>>
    decreases values.len(),
{
    if values.len() == 0 {
        m
    } else {
        add_one(added(m, key, values.drop_last()), key, values.last())
    }
}

/// The metadata `m` after adding every value of every raw entry in order.
pub open spec fn loaded(m: Map<KeyView, Seq<Seq<char>>>, raw: Seq<(Seq<char>, Seq<Seq<char>>)>) -> Map<KeyView, Seq<Seq<char>>>
    decreases raw.len(),
{
    if raw.len() == 0 {
        m
    } else {
        added(loaded(m, raw.drop_last()), raw.last().0, raw.last().1)
    }
}

/// Loading two lists of raw entries one after the other is loading them
/// joined.
pub proof fn lemma_loaded_append(
    m: Map<KeyView, Seq<Seq<char>>>,
    a: Seq<(Seq<char>, Seq<Seq<char>>)>,
    b: Seq<(Seq<char>, Seq<Seq<char>>)>,
)
    ensures
        loaded(m, a + b) == loaded(loaded(m, a), b),
    decreases b.len(),
{
    if b.len() == 0 {
        assert(a + b =~= a);
    } else {
        lemma_loaded_append(m, a, b.drop_last());
        assert((a + b).drop_last() =~= a + b.drop_last());
        assert((a + b).last() == b.last());
    }
}

/// Loading one raw entry is adding its values one by one, in order.
pub proof fn lemma_loaded_single(m: Map<KeyView, Seq<Seq<char>>>, key: Seq<char>, values: Seq<Seq<char>>)
    ensures
        loaded(m, seq![(key, values)]) == added(m, key, values),
{
    let r = seq![(key, values)];
    assert(r.drop_last() =~= Seq::<(Seq<char>, Seq<Seq<char>>)>::empty());
    assert(loaded(m, r.drop_last()) == m);
    assert(r.last() == (key, values));
    assert(loaded(m, r) == added(loaded(m, r.drop_last()), r.last().0, r.last().1));
}

/// The texts of raw metadata entries.
pub open spec fn raw_view(raw: Seq<(String, Vec<String>)>) -> Seq<(Seq<char>, Seq<Seq<char>>)> {
    raw.map_values(|e: (String, Vec<String>)| (e.0@, texts(e.1@)))
}

impl View for MetadataStore {
    type V = Map<KeyView, Seq<Seq<char>>>;

    closed spec fn view(&self) -> Map<KeyView, Seq<Seq<char>>> {
        entries_map(self.data@)
    }
}

impl MetadataStore {
    /// The store's internal invariant: each key at most once.
    pub closed spec fn wf(&self) -> bool {
        keys_distinct(self.data@)
    }

    /// A new, empty store.
    pub fn new() -> (r: MetadataStore)
        ensures
            r.wf(),
            r@ == Map::<KeyView, Seq<Seq<char>>>::empty(),
    {
        let r = MetadataStore { data: Vec::new() };
        assert(r@ =~= Map::<KeyView, Seq<Seq<char>>>::empty());
        r
    }

    /// The position of the entry for key `k`.
    fn find(&self, k: &CanonicalMetadataKey) -> (r: Option<usize>)
        requires
            self.wf(),
        ensures
            r is Some <==> entry_index(self.data@, k@) is Some,
            r is Some ==> entry_index(self.data@, k@) == Some(r.unwrap() as int),
            r is Some ==> r.unwrap() < self.data@.len(),
    {
        proof {
            lemma_entry_index(self.data@, k@);
        }
        let mut i: usize = 0;
        while i < self.data.len()
            invariant
                i <= self.data@.len(),
                keys_distinct(self.data@),
                forall|j: int| 0 <= j < i ==> #[trigger] self.data@[j].0@ != k@,
            decreases self.data@.len() - i,
        {
            if self.data[i].0.same_as(k) {
                proof {
                    lemma_entry_index_of(self.data@, i as int);
                }
                return Some(i);
            }
            i = i + 1;
        }
        None
    }

    /// Appends `value` to the values of `key`, creating the entry if needed.
    fn push_value(&mut self, key: CanonicalMetadataKey, value: String)
        requires
            old(self).wf(),
        ensures
            final(self).wf(),
            final(self)@ == old(self)@.insert(key@, if old(self)@.contains_key(key@) {
                old(self)@[key@].push(value@)
            } else {
                seq![value@]
            }),
    {
        let ghost old_d = self.data@;
        proof {
            lemma_entry_index(old_d, key@);
        }
        match self.find(&key) {
            Some(i) => {
                self.data[i].1.push(value);
                let ghost new_d = self.data@;
                assert(texts(new_d[i as int].1@) =~= texts(old_d[i as int].1@).push(value@));
                assert forall|a: int, b: int| 0 <= a < new_d.len() && 0 <= b < new_d.len() && a != b
                    implies #[trigger] new_d[a].0@ != #[trigger] new_d[b].0@ by {
                    assert(new_d[a].0 == old_d[a].0);
                    assert(new_d[b].0 == old_d[b].0);
                }
                assert(old_d[i as int].0@ == key@);
                assert forall|k: KeyView| #[trigger] entry_index(new_d, k) == entry_index(old_d, k) by {
                    lemma_entry_index(new_d, k);
                    lemma_entry_index(old_d, k);
                    if entry_index(old_d, k) is Some {
                        let j = entry_index(old_d, k).unwrap();
                        lemma_entry_index_of(old_d, j);
                        assert(new_d[j].0 == old_d[j].0);
                        lemma_entry_index_of(new_d, j);
                    } else {
                        assert forall|j: int| 0 <= j < new_d.len() implies #[trigger] new_d[j].0@ != k by {
                            assert(new_d[j].0 == old_d[j].0);
                        }
                    }
                }
                assert forall|k: KeyView| entries_map(new_d).contains_key(k) && k != key@ implies
                    #[trigger] entries_map(new_d)[k] == entries_map(old_d)[k] by {
                    assert(entry_index(new_d, k) == entry_index(old_d, k));
                    let j = entry_index(old_d, k).unwrap();
                    lemma_entry_index(old_d, k);
                    assert(j != i);
                    assert(new_d[j] == old_d[j]);
                }
                assert(entry_index(new_d, key@) == Some(i as int));
                assert(entries_map(new_d) =~= entries_map(old_d).insert(key@, texts(old_d[i as int].1@).push(value@)));
            },
            None => {
                let mut values: Vec<String> = Vec::new();
                values.push(value);
                self.data.push((key, values));
                let ghost new_d = self.data@;
                let ghost n = old_d.len() as int;
                assert(texts(new_d[n].1@) =~= seq![value@]);
                assert forall|a: int, b: int| 0 <= a < new_d.len() && 0 <= b < new_d.len() && a != b
                    implies #[trigger] new_d[a].0@ != #[trigger] new_d[b].0@ by {
                    if a < n {
                        assert(new_d[a] == old_d[a]);
                    }
                    if b < n {
                        assert(new_d[b] == old_d[b]);
                    }
                }
                assert(new_d.drop_last() =~= old_d);
                assert(new_d[n].0@ == key@);
                assert forall|k: KeyView| k != key@ implies #[trigger] entry_index(new_d, k) == entry_index(old_d, k) by {}
                assert forall|k: KeyView| entries_map(new_d).contains_key(k) && k != key@ implies
                    #[trigger] entries_map(new_d)[k] == entries_map(old_d)[k] by {
                    let j = entry_index(old_d, k).unwrap();
                    lemma_entry_index(old_d, k);
                    assert(new_d[j] == old_d[j]);
                }
                assert(entry_index(new_d, key@) == Some(n));
                assert(entries_map(new_d) =~= entries_map(old_d).insert(key@, seq![value@]));
            },
        }
    }

    /// Adds a metadata value under the key named `key_str` (parsed
    /// case-insensitively, or kept as a custom key). The value is trimmed; a
    /// blank value is ignored. Always succeeds.
    pub fn add(&mut self, key_str: &str, value: &str) -> (r: Result<(), ParseCanonicalMetadataKeyError>)
        requires
            old(self).wf(),
        ensures
            final(self).wf(),
            r is Ok,
            trim(value@).len() == 0 ==> final(self)@ == old(self)@,
            trim(value@).len() > 0 ==> final(self)@ == old(self)@.insert(store_key(key_str@),
                if old(self)@.contains_key(store_key(key_str@)) {
                    old(self)@[store_key(key_str@)].push(trim(value@))
                } else {
                    seq![trim(value@)]
                }),
    {
        let trimmed = trim_string(value);
        if text_is_empty(trimmed.as_str()) {
            return Ok(());
        }
        let key = CanonicalMetadataKey::for_name(key_str);
        self.push_value(key, trimmed);
        Ok(())
    }

    /// The first value of `key`, if it has any.
    pub fn get_single_value(&self, key: &CanonicalMetadataKey) -> (r: Option<&String>)
        requires
            self.wf(),
        ensures
            match r {
                Some(v) => self@.contains_key(key@) && self@[key@].len() > 0 && v@ == self@[key@][0],
                None => !self@.contains_key(key@) || self@[key@].len() == 0,
            },
    {
        match self.find(key) {
            Some(i) => {
                if self.data[i].1.len() > 0 {
                    Some(&self.data[i].1[0])
                } else {
                    None
                }
            },
            None => None,
        }
    }

    /// All values of `key`, if it has an entry.
    pub fn get_multiple_values(&self, key: &CanonicalMetadataKey) -> (r: Option<&Vec<String>>)
        requires
            self.wf(),
        ensures
            match r {
                Some(v) => self@.contains_key(key@) && texts(v@) == self@[key@],
                None => !self@.contains_key(key@),
            },
    {
        match self.find(key) {
            Some(i) => Some(&self.data[i].1),
            None => None,
        }
    }

    /// All entries of the store: each key with its values.
    pub fn get_all_data(&self) -> (r: &Vec<(CanonicalMetadataKey, Vec<String>)>)
        requires
            self.wf(),
        ensures
            entries_map(r@) == self@,
            keys_distinct(r@),
    {
        &self.data
    }

    /// Removes all metadata.
    pub fn clear(&mut self)
        ensures
            final(self).wf(),
            final(self)@ == Map::<KeyView, Seq<Seq<char>>>::empty(),
    {
        self.data = Vec::new();
        assert(self@ =~= Map::<KeyView, Seq<Seq<char>>>::empty());
    }

    /// Removes the key named `key_str` (parsed as `add` does) with all its values.
    pub fn remove(&mut self, key_str: &str)
        requires
            old(self).wf(),
        ensures
            final(self).wf(),
            final(self)@ == old(self)@.remove(store_key(key_str@)),
    {
        let key = CanonicalMetadataKey::for_name(key_str);
        self.remove_key(&key);
    }

    /// Removes `key` with all its values.
    fn remove_key(&mut self, key: &CanonicalMetadataKey)
        requires
            old(self).wf(),
        ensures
            final(self).wf(),
            final(self)@ == old(self)@.remove(key@),
    {
        match self.find(key) {
            None => {
                assert(self@ =~= self@.remove(key@));
            },
            Some(i) => {
                let ghost old_d = self.data@;
                proof {
                    lemma_entry_index(old_d, key@);
                }
                let _ = self.data.remove(i);
                let ghost new_d = self.data@;
                assert(new_d =~= old_d.remove(i as int));
                assert forall|a: int, b: int| 0 <= a < new_d.len() && 0 <= b < new_d.len() && a != b
                    implies #[trigger] new_d[a].0@ != #[trigger] new_d[b].0@ by {
                    let oa = if a < i { a } else { a + 1 };
                    let ob = if b < i { b } else { b + 1 };
                    assert(new_d[a] == old_d[oa]);
                    assert(new_d[b] == old_d[ob]);
                }
                assert forall|k: KeyView| k != key@ implies
                    (#[trigger] entry_index(new_d, k) is Some) == (entry_index(old_d, k) is Some)
                    && (entry_index(new_d, k) is Some ==> new_d[entry_index(new_d, k).unwrap()]
                        == old_d[entry_index(old_d, k).unwrap()]) by {
                    lemma_entry_index(new_d, k);
                    lemma_entry_index(old_d, k);
                    if entry_index(old_d, k) is Some {
                        let j = entry_index(old_d, k).unwrap();
                        assert(j != i);
                        let nj = if j < i { j } else { j - 1 };
                        assert(new_d[nj] == old_d[j]);
                        lemma_entry_index_of(new_d, nj);
                    }
                    if entry_index(new_d, k) is Some {
                        let nj = entry_index(new_d, k).unwrap();
                        let j = if nj < i { nj } else { nj + 1 };
                        assert(new_d[nj] == old_d[j]);
                        lemma_entry_index_of(old_d, j);
                    }
                }
                proof {
                    lemma_entry_index(new_d, key@);
                }
                assert(entry_index(new_d, key@) is None) by {
                    if entry_index(new_d, key@) is Some {
                        let nj = entry_index(new_d, key@).unwrap();
                        let j = if nj < i { nj } else { nj + 1 };
                        assert(new_d[nj] == old_d[j]);
                        assert(j != i);
                    }
                }
                assert(entries_map(new_d) =~= entries_map(old_d).remove(key@));
            },
        }
    }

    /// Loads raw metadata: every value of every key is added as `add` does
    /// (see `loaded`).
    pub fn load_from_raw(&mut self, raw_metadata: &Vec<(String, Vec<String>)>)
        requires
            old(self).wf(),
        ensures
            final(self).wf(),
            final(self)@ == loaded(old(self)@, raw_view(raw_metadata@)),
    {
        let ghost start = self@;
        let ghost raw = raw_view(raw_metadata@);
        let mut i: usize = 0;
        while i < raw_metadata.len()
            invariant
                i <= raw_metadata@.len(),
                raw == raw_view(raw_metadata@),
                self.wf(),
                self@ == loaded(start, raw.take(i as int)),
            decreases raw_metadata@.len() - i,
        {
            let (key, values) = &raw_metadata[i];
            let ghost before = self@;
            assert(raw[i as int] == (key@, texts(values@)));
            let mut j: usize = 0;
            while j < values.len()
                invariant
                    j <= values@.len(),
                    self.wf(),
                    self@ == added(before, key@, texts(values@).take(j as int)),
                decreases values@.len() - j,
            {
                assert(texts(values@).take(j + 1).drop_last() =~= texts(values@).take(j as int));
                let _ = self.add(key.as_str(), values[j].as_str());
                j = j + 1;
            }
            assert(texts(values@).take(values@.len() as int) =~= texts(values@));
            assert(raw.take(i + 1).drop_last() =~= raw.take(i as int));
            i = i + 1;
        }
        assert(raw.take(raw_metadata@.len() as int) =~= raw);
    }

    /// The public metadata (see `is_public`) as display names with their values.
    pub fn to_serializable_map(&self) -> (r: Vec<(String, Vec<String>)>)
        requires
            self.wf(),
        ensures
            forall|k: int| 0 <= k < r@.len() ==> #[trigger] shows_public_entry(self@, r@[k]),
            forall|key: KeyView| #[trigger] self@.contains_key(key) && key_is_public(key) ==>
                exists|k: int| 0 <= k < r@.len() && r@[k].0@ == key_display(key) && texts(r@[k].1@) == self@[key],
    {
        let mut r: Vec<(String, Vec<String>)> = Vec::new();
        let ghost mut src: Seq<int> = Seq::empty();
        let mut i: usize = 0;
        while i < self.data.len()
            invariant
                i <= self.data@.len(),
                self.wf(),
                src.len() == r@.len(),
                forall|k: int| 0 <= k < r@.len() ==> #[trigger] from_entry(r@[k], self.data@, src[k], i as int),
                forall|j: int| 0 <= j < i && key_is_public(#[trigger] self.data@[j].0@) ==>
                    exists|k: int| 0 <= k < r@.len() && src[k] == j,
            decreases self.data@.len() - i,
        {
            let (key, values) = &self.data[i];
            if key.is_public() {
                let name = key.to_display_string();
                let copied = copy_strings(values);
                let ghost old_r = r@;
                let ghost old_src = src;
                r.push((name, copied));
                proof {
                    src = src.push(i as int);
                    assert forall|j: int| 0 <= j < i + 1 && key_is_public(#[trigger] self.data@[j].0@) implies
                        exists|k: int| 0 <= k < r@.len() && src[k] == j by {
                        if j == i {
                            assert(src[old_r.len() as int] == j);
                        } else {
                            let k0 = choose|k: int| 0 <= k < old_r.len() && old_src[k] == j;
                            assert(src[k0] == j);
                        }
                    }
                    assert forall|k: int| 0 <= k < r@.len() implies #[trigger] from_entry(r@[k], self.data@, src[k], i + 1) by {
                        if k < old_r.len() {
                            assert(r@[k] == old_r[k]);
                            assert(from_entry(old_r[k], self.data@, old_src[k], i as int));
                        }
                    }
                }
            } else {
                proof {
                    assert forall|k: int| 0 <= k < r@.len() implies #[trigger] from_entry(r@[k], self.data@, src[k], i + 1) by {
                        assert(from_entry(r@[k], self.data@, src[k], i as int));
                    }
                }
            }
            i = i + 1;
        }
        proof {
            assert forall|key: KeyView| #[trigger] self@.contains_key(key) && key_is_public(key) implies
                exists|k: int| 0 <= k < r@.len() && r@[k].0@ == key_display(key) && texts(r@[k].1@) == self@[key] by {
                let j = entry_index(self.data@, key).unwrap();
                lemma_entry_index(self.data@, key);
                assert(key_is_public(self.data@[j].0@));
                let k = choose|k: int| 0 <= k < r@.len() && src[k] == j;
                assert(from_entry(r@[k], self.data@, src[k], i as int));
                assert(r@[k].0@ == key_display(key));
                assert(texts(r@[k].1@) == self@[key]);
            }
            assert forall|k: int| 0 <= k < r@.len() implies #[trigger] shows_public_entry(self@, r@[k]) by {
                assert(from_entry(r@[k], self.data@, src[k], i as int));
                let j = src[k];
                lemma_entry_index_of(self.data@, j);
                assert(self@.contains_key(self.data@[j].0@));
            }
        }
        r
    }

    /// All values of the key named `key` (parsed as `add` does), if any.
    pub fn get_multiple_values_by_key(&self, key: &str) -> (r: Option<&Vec<String>>)
        requires
            self.wf(),
        ensures
            match r {
                Some(v) => self@.contains_key(store_key(key@)) && texts(v@) == self@[store_key(key@)],
                None => !self@.contains_key(store_key(key@)),
            },
    {
        let canonical = CanonicalMetadataKey::for_name(key);
        self.get_multiple_values(&canonical)
    }

    /// Sets the values of the key named `key_str`, replacing any it had;
    /// each value is trimmed.
    pub fn set_multiple(&mut self, key_str: &str, values: Vec<String>)
        requires
            old(self).wf(),
        ensures
            final(self).wf(),
            final(self)@ == old(self)@.insert(store_key(key_str@), texts(values@).map_values(|v: Seq<char>| trim(v))),
    {
        let key = CanonicalMetadataKey::for_name(key_str);
        let mut cleaned: Vec<String> = Vec::new();
        let mut i: usize = 0;
        while i < values.len()
            invariant
                i <= values@.len(),
                cleaned@.len() == i,
                forall|k: int| 0 <= k < i ==> #[trigger] cleaned@[k]@ == trim(values@[k]@),
            decreases values@.len() - i,
        {
            cleaned.push(trim_string(values[i].as_str()));
            i = i + 1;
        }
        assert(texts(cleaned@) =~= texts(values@).map_values(|v: Seq<char>| trim(v)));
        self.remove_key(&key);
        let ghost mid = self@;
        self.insert_new(key, cleaned);
    }

    /// Adds an entry for a key that has none.
    fn insert_new(&mut self, key: CanonicalMetadataKey, values: Vec<String>)
        requires
            old(self).wf(),
            !old(self)@.contains_key(key@),
        ensures
            final(self).wf(),
            final(self)@ == old(self)@.insert(key@, texts(values@)),
    {
        let ghost old_d = self.data@;
        let ghost kv = key@;
        let ghost vv = texts(values@);
        proof {
            lemma_entry_index(old_d, key@);
        }
        self.data.push((key, values));
        let ghost new_d = self.data@;
        let ghost n = old_d.len() as int;
        assert forall|a: int, b: int| 0 <= a < new_d.len() && 0 <= b < new_d.len() && a != b
            implies #[trigger] new_d[a].0@ != #[trigger] new_d[b].0@ by {
            if a < n {
                assert(new_d[a] == old_d[a]);
            }
            if b < n {
                assert(new_d[b] == old_d[b]);
            }
        }
        assert(new_d.drop_last() =~= old_d);
        assert forall|k: KeyView| entries_map(new_d).contains_key(k) && k != kv implies
            #[trigger] entries_map(new_d)[k] == entries_map(old_d)[k] by {
            let j = entry_index(old_d, k).unwrap();
            lemma_entry_index(old_d, k);
            assert(new_d[j] == old_d[j]);
        }
        assert(entries_map(new_d) =~= entries_map(old_d).insert(kv, vv));
    }

    /// Cleans every value list: values are trimmed, blank values dropped,
    /// the rest sorted (code-point order) without duplicates; keys left
    /// without values are removed.
    pub fn deduplicate_values(&mut self)
        requires
            old(self).wf(),
        ensures
            final(self).wf(),
            forall|k: KeyView| #[trigger] final(self)@.contains_key(k) <==> old(self)@.contains_key(k)
                && cleaned(old(self)@[k]).len() > 0,
            forall|k: KeyView| #[trigger] final(self)@.contains_key(k) ==> strictly_sorted(final(self)@[k])
                && final(self)@[k].to_set() == cleaned(old(self)@[k]).to_set(),
    {
        let ghost old_d = self.data@;
        let mut old_data: Vec<(CanonicalMetadataKey, Vec<String>)> = Vec::new();
        std::mem::swap(&mut old_data, &mut self.data);
        let mut i: usize = 0;
        assert(self@ =~= Map::<KeyView, Seq<Seq<char>>>::empty());
        while i < old_data.len()
            invariant
                i <= old_data@.len(),
                old_data@ == old_d,
                keys_distinct(old_d),
                self.wf(),
                forall|k: KeyView| #[trigger] self@.contains_key(k) <==> exists|j: int| 0 <= j < i
                    && old_d[j].0@ == k && cleaned(texts(old_d[j].1@)).len() > 0,
                forall|j: int| 0 <= j < i && #[trigger] cleaned(texts(old_d[j].1@)).len() > 0 ==>
                    self@.contains_key(old_d[j].0@) && strictly_sorted(self@[old_d[j].0@])
                        && self@[old_d[j].0@].to_set() == cleaned(texts(old_d[j].1@)).to_set(),
            decreases old_data@.len() - i,
        {
            let (key, values) = &old_data[i];
            let mut sorted: Vec<String> = Vec::new();
            let mut j: usize = 0;
            assert(texts(values@).take(0) =~= Seq::<Seq<char>>::empty());
            assert(cleaned(Seq::<Seq<char>>::empty()) =~= Seq::<Seq<char>>::empty()) by {
                reveal_with_fuel(Seq::filter, 1);
            }
            assert(texts(sorted@).to_set() =~= Set::<Seq<char>>::empty());
            while j < values.len()
                invariant
                    j <= values@.len(),
                    strictly_sorted(texts(sorted@)),
                    texts(sorted@).to_set() == cleaned(texts(values@).take(j as int)).to_set(),
                decreases values@.len() - j,
            {
                let t = trim_string(values[j].as_str());
                proof {
                    lemma_cleaned_push(texts(values@).take(j as int), values@[j as int]@);
                    assert(texts(values@).take(j + 1) =~= texts(values@).take(j as int).push(values@[j as int]@));
                }
                if !text_is_empty(t.as_str()) {
                    insert_sorted_unique(&mut sorted, t);
                }
                j = j + 1;
            }
            assert(texts(values@).take(j as int) =~= texts(values@));
            let ghost kv = key@;
            proof {
                lemma_set_len_zero(texts(sorted@), cleaned(texts(values@)));
                assert(!self@.contains_key(kv)) by {
                    if self@.contains_key(kv) {
                        let j0 = choose|j0: int| 0 <= j0 < i && old_d[j0].0@ == kv
                            && cleaned(texts(old_d[j0].1@)).len() > 0;
                        assert(old_d[j0].0@ == old_d[i as int].0@);
                    }
                }
            }
            if sorted.len() > 0 {
                let ghost before = self@;
                self.insert_new(key.copy_key(), sorted);
                assert forall|k: KeyView| #[trigger] self@.contains_key(k) <==> exists|j: int| 0 <= j < i + 1
                    && old_d[j].0@ == k && cleaned(texts(old_d[j].1@)).len() > 0 by {
                    if k == kv {
                        assert(old_d[i as int].0@ == k);
                    }
                }
                assert forall|j: int| 0 <= j < i + 1 && #[trigger] cleaned(texts(old_d[j].1@)).len() > 0 implies
                    self@.contains_key(old_d[j].0@) && strictly_sorted(self@[old_d[j].0@])
                        && self@[old_d[j].0@].to_set() == cleaned(texts(old_d[j].1@)).to_set() by {
                    if j < i {
                        assert(old_d[j].0@ != kv);
                    }
                }
            } else {
                assert forall|k: KeyView| #[trigger] self@.contains_key(k) <==> exists|j: int| 0 <= j < i + 1
                    && old_d[j].0@ == k && cleaned(texts(old_d[j].1@)).len() > 0 by {
                    if exists|j: int| 0 <= j < i + 1 && old_d[j].0@ == k && cleaned(texts(old_d[j].1@)).len() > 0 {
                        let j0 = choose|j: int| 0 <= j < i + 1 && old_d[j].0@ == k && cleaned(texts(old_d[j].1@)).len() > 0;
                        if j0 == i {
                            assert(cleaned(texts(old_d[i as int].1@)).len() == 0);
                        }
                    }
                }
            }
            i = i + 1;
        }
        proof {
            assert forall|k: KeyView| #[trigger] self@.contains_key(k) <==> entries_map(old_d).contains_key(k)
                && cleaned(entries_map(old_d)[k]).len() > 0 by {
                lemma_entry_index(old_d, k);
                if entries_map(old_d).contains_key(k) {
                    let j = entry_index(old_d, k).unwrap();
                    if exists|j2: int| 0 <= j2 < i && old_d[j2].0@ == k && cleaned(texts(old_d[j2].1@)).len() > 0 {
                        let j2 = choose|j2: int| 0 <= j2 < i && old_d[j2].0@ == k && cleaned(texts(old_d[j2].1@)).len() > 0;
                        lemma_entry_index_of(old_d, j2);
                    }
                } else {
                    if exists|j2: int| 0 <= j2 < i && old_d[j2].0@ == k && cleaned(texts(old_d[j2].1@)).len() > 0 {
                        let j2 = choose|j2: int| 0 <= j2 < i && old_d[j2].0@ == k && cleaned(texts(old_d[j2].1@)).len() > 0;
                        assert(old_d[j2].0@ == k);
                    }
                }
            }
            assert forall|k: KeyView| #[trigger] self@.contains_key(k) implies strictly_sorted(self@[k])
                && self@[k].to_set() == cleaned(entries_map(old_d)[k]).to_set() by {
                let j = entry_index(old_d, k).unwrap();
                lemma_entry_index(old_d, k);
                let j2 = choose|j2: int| 0 <= j2 < i && old_d[j2].0@ == k && cleaned(texts(old_d[j2].1@)).len() > 0;
                lemma_entry_index_of(old_d, j2);
                assert(cleaned(texts(old_d[j2].1@)).len() > 0);
            }
        }
    }
}

/// The values that survive cleaning: trimmed, blank ones dropped.
pub open spec fn cleaned(vals: Seq<Seq<char>>) -> Seq<Seq<char>> {
    vals.map_values(|v: Seq<char>| trim(v)).filter(|t: Seq<char>| t.len() > 0)
}

/// Cleaning one more value adds its trimmed form, unless that is empty.
pub proof fn lemma_cleaned_push(vals: Seq<Seq<char>>, v: Seq<char>)
    ensures
        cleaned(vals.push(v)).to_set() == if trim(v).len() > 0 {
            cleaned(vals).to_set().insert(trim(v))
        } else {
            cleaned(vals).to_set()
        },
{
    let f = |v: Seq<char>| trim(v);
    let p = |t: Seq<char>| t.len() > 0;
    assert(vals.push(v).map_values(f) =~= vals.map_values(f).push(trim(v)));
    assert(vals.map_values(f).push(trim(v)) =~= vals.map_values(f) + seq![trim(v)]);
    Seq::filter_distributes_over_add(vals.map_values(f), seq![trim(v)], p);
    reveal_with_fuel(Seq::filter, 2);
    assert(seq![trim(v)].drop_last() =~= Seq::<Seq<char>>::empty());
    if trim(v).len() > 0 {
        assert(seq![trim(v)].filter(p) =~= seq![trim(v)]);
        assert(cleaned(vals.push(v)) =~= cleaned(vals).push(trim(v)));
        cleaned(vals).lemma_push_to_set_commute(trim(v));
    } else {
        assert(seq![trim(v)].filter(p) =~= Seq::<Seq<char>>::empty());
        assert(cleaned(vals.push(v)) =~= cleaned(vals));
    }
}

/// Equal sets: one sequence is empty exactly when the other is.
pub proof fn lemma_set_len_zero(a: Seq<Seq<char>>, b: Seq<Seq<char>>)
    requires
        a.to_set() == b.to_set(),
    ensures
        (a.len() == 0) == (b.len() == 0),
{
    if a.len() > 0 {
        assert(a.to_set().contains(a[0]));
        assert(b.contains(a[0]));
    }
    if b.len() > 0 {
        assert(b.to_set().contains(b[0]));
        assert(a.contains(b[0]));
    }
}

} // verus!
