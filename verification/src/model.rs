//! A flat model of parsed lyrics used by the plain-text lyric writers
//! (LRC, LYS and YRC).

use vstd::prelude::*;

verus! {

/// A timed syllable of a line.
#[derive(Debug)]
pub struct Syllable {
    /// Start time in milliseconds.
    pub start_time: u32,
    /// End time in milliseconds.
    pub end_time: u32,
    /// The text of the syllable.
    pub text: String,
    /// Whether a space follows the syllable.
    pub ends_with_space: Option<bool>,
}

/// A translation or romanisation of a line.
#[derive(Debug)]
pub struct AuxText {
    /// The text of the translation or romanisation.
    pub text: String,
}

/// The background vocals of a line.
#[derive(Debug)]
pub struct BackgroundLine {
    /// Start time in milliseconds.
    pub start_time: u32,
    /// End time in milliseconds.
    pub end_time: u32,
    /// The whole text.
    pub text: String,
    /// The syllables, when timed by syllable.
    pub words: Option<Vec<Syllable>>,
    /// Translations.
    pub translations: Option<Vec<AuxText>>,
    /// Romanisations.
    pub romanizations: Option<Vec<AuxText>>,
}

/// A line of lyrics.
#[derive(Debug)]
pub struct LyricLine {
    /// Start time in milliseconds.
    pub start_time: u32,
    /// End time in milliseconds.
    pub end_time: u32,
    /// The whole text.
    pub text: String,
    /// The syllables, when timed by syllable.
    pub words: Option<Vec<Syllable>>,
    /// Translations.
    pub translations: Option<Vec<AuxText>>,
    /// Romanisations.
    pub romanizations: Option<Vec<AuxText>>,
    /// Background vocals.
    pub background_vocal: Option<BackgroundLine>,
    /// The singer's id, such as `"v1"`.
    pub agent_id: Option<String>,
}

/// The metadata of parsed lyrics that a publication needs.
#[derive(Debug)]
pub struct TTMLMetadata {
    /// Song title.
    pub title: Option<String>,
    /// Artist.
    pub artist: Option<String>,
    /// Album.
    pub album: Option<String>,
    /// Ids of the song on music platforms: platform name and id.
    pub platform_ids: Option<Vec<(String, String)>>,
}

/// Parsed lyrics: the lines in order, and the metadata.
#[derive(Debug)]
pub struct TTMLResult {
    /// The lines.
    pub lines: Vec<LyricLine>,
    /// The metadata.
    pub metadata: TTMLMetadata,
}

/// `a - b`, or 0 when `b > a` (`u32::saturating_sub`).
pub open spec fn sat_sub(a: u32, b: u32) -> nat {
    if a >= b {
        (a - b) as nat
    } else {
        0
    }
}

/// The syllables of an optional list, when there is at least one.
pub open spec fn nonempty_words(words: Option<Vec<Syllable>>) -> Option<Seq<Syllable>> {
    match words {
        Some(w) => if w@.len() > 0 {
            Some(w@)
        } else {
            None
        },
        None => None,
    }
}

/// The flag of an optional boolean, `false` when absent.
pub open spec fn flag(b: Option<bool>) -> bool {
    match b {
        Some(x) => x,
        None => false,
    }
}

} // verus!
