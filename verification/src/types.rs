//! Core data types of the lyric model: syllables, words, tracks, lines,
//! agents and the options of parsing.

use vstd::prelude::*;

use crate::metadata::{store_key, MetadataStore};
use crate::text::{texts, chars_of, push_char, push_str, str_eq, string_from_range, trim_end, trim_end_string, to_owned_string};
use crate::time::{find_char, index_of};

verus! {

// ---------------------------------------------------------------------------
// Errors
// ---------------------------------------------------------------------------

/// The errors that converting and processing lyrics can raise.
#[derive(Debug)]
pub enum ConvertError {
    /// The XML reader reported an error that cannot be recovered from.
    Xml(String),
    /// An XML attribute could not be read.
    Attribute(String),
    /// A clock value that is not a valid TTML time.
    InvalidTime(String),
    /// An internal inconsistency or an unclassified error.
    Internal(String),
    /// An invalid lyric format.
    InvalidLyricFormat(String),
    /// The text could not be decoded.
    Encoding(String),
    /// Word boundaries could not be detected.
    WordBoundaryDetection(String),
    /// Furigana could not be parsed.
    FuriganaParsingError(String),
    /// Tracks could not be merged.
    TrackMergeError(String),
}

/// The prefix of the message of an error.
pub open spec fn error_prefix(e: ConvertError) -> Seq<char> {
    match e {
        ConvertError::Xml(_) => "生成 XML 错误: "@,
        ConvertError::Attribute(_) => "XML 属性错误: "@,
        ConvertError::InvalidTime(_) => "无效的时间格式: "@,
        ConvertError::Internal(_) => "错误: "@,
        ConvertError::InvalidLyricFormat(_) => "无效的歌词格式: "@,
        ConvertError::Encoding(_) => "文本编码或解码错误: "@,
        ConvertError::WordBoundaryDetection(_) => "词组边界检测失败: "@,
        ConvertError::FuriganaParsingError(_) => "振假名解析失败: "@,
        ConvertError::TrackMergeError(_) => "轨道合并失败: "@,
    }
}

/// The detail an error carries.
pub open spec fn error_detail(e: ConvertError) -> Seq<char> {
    match e {
        ConvertError::Xml(s) => s@,
        ConvertError::Attribute(s) => s@,
        ConvertError::InvalidTime(s) => s@,
        ConvertError::Internal(s) => s@,
        ConvertError::InvalidLyricFormat(s) => s@,
        ConvertError::Encoding(s) => s@,
        ConvertError::WordBoundaryDetection(s) => s@,
        ConvertError::FuriganaParsingError(s) => s@,
        ConvertError::TrackMergeError(s) => s@,
    }
}

impl ConvertError {
    /// The message of the error: its kind, a colon and its detail.
    pub fn message(&self) -> (r: String)
        ensures
            r@ == error_prefix(*self) + error_detail(*self),
    {
        let (prefix, detail) = match self {
            ConvertError::Xml(s) => ("生成 XML 错误: ", s),
            ConvertError::Attribute(s) => ("XML 属性错误: ", s),
            ConvertError::InvalidTime(s) => ("无效的时间格式: ", s),
            ConvertError::Internal(s) => ("错误: ", s),
            ConvertError::InvalidLyricFormat(s) => ("无效的歌词格式: ", s),
            ConvertError::Encoding(s) => ("文本编码或解码错误: ", s),
            ConvertError::WordBoundaryDetection(s) => ("词组边界检测失败: ", s),
            ConvertError::FuriganaParsingError(s) => ("振假名解析失败: ", s),
            ConvertError::TrackMergeError(s) => ("轨道合并失败: ", s),
        };
        let mut out = to_owned_string(prefix);
        push_str(&mut out, detail.as_str());
        out
    }
}

/// A metadata key that cannot be read (only the empty key).
#[derive(Debug)]
pub struct ParseCanonicalMetadataKeyError(pub String);

impl ParseCanonicalMetadataKeyError {
    /// The message of the error: the key that could not be read.
    pub fn message(&self) -> (r: String)
        ensures
            r@ == "未知或无效的元数据键: "@ + self.0@,
    {
        let mut out = to_owned_string("未知或无效的元数据键: ");
        push_str(&mut out, self.0.as_str());
        out
    }
}

// ---------------------------------------------------------------------------
// Formats and content types
// ---------------------------------------------------------------------------

/// The lyric formats that are supported.
#[derive(Debug, Clone, Copy, PartialEq, Eq, Structural)]
pub enum LyricFormat {
    /// Timed Text Markup Language.
    Ttml,
}

impl Default for LyricFormat {
    fn default() -> (r: Self)
        ensures
            r == LyricFormat::Ttml,
    {
        LyricFormat::Ttml
    }
}

/// The kinds of content track that annotations attach to.
#[derive(Debug, Clone, Copy, PartialEq, Eq, Structural)]
pub enum ContentType {
    /// Main vocals.
    Main,
    /// Background vocals.
    Background,
}

impl Default for ContentType {
    fn default() -> (r: Self)
        ensures
            r == ContentType::Main,
    {
        ContentType::Main
    }
}

/// The key of a track's metadata entry.
#[derive(Debug)]
pub enum TrackMetadataKey {
    /// BCP 47 language code.
    Language,
    /// Romanisation scheme.
    Scheme,
    /// Any other key.
    Custom(String),
}

/// Two track metadata keys are the same key.
pub open spec fn same_track_key(a: TrackMetadataKey, b: TrackMetadataKey) -> bool {
    match (a, b) {
        (TrackMetadataKey::Language, TrackMetadataKey::Language) => true,
        (TrackMetadataKey::Scheme, TrackMetadataKey::Scheme) => true,
        (TrackMetadataKey::Custom(x), TrackMetadataKey::Custom(y)) => x@ == y@,
        _ => false,
    }
}

impl TrackMetadataKey {
    /// Whether two keys are the same key.
    pub fn same_as(&self, other: &TrackMetadataKey) -> (r: bool)
        ensures
            r == same_track_key(*self, *other),
    {
        match (self, other) {
            (TrackMetadataKey::Language, TrackMetadataKey::Language) => true,
            (TrackMetadataKey::Scheme, TrackMetadataKey::Scheme) => true,
            (TrackMetadataKey::Custom(x), TrackMetadataKey::Custom(y)) => *x == *y,
            _ => false,
        }
    }
}

// ---------------------------------------------------------------------------
// Syllables, words and tracks
// ---------------------------------------------------------------------------

/// One furigana syllable.
#[derive(Debug)]
pub struct FuriganaSyllable {
    /// The furigana text.
    pub text: String,
    /// Optional `(start_ms, end_ms)` timing.
    pub timing: Option<(u64, u64)>,
}

/// A syllable of word-timed lyrics.
#[derive(Debug)]
pub struct LyricSyllable {
    /// The text of the syllable.
    pub text: String,
    /// Start time in milliseconds from the start of the song.
    pub start_ms: u64,
    /// End time in milliseconds from the start of the song.
    pub end_ms: u64,
    /// Optional duration in milliseconds.
    pub duration_ms: Option<u64>,
    /// Whether a space follows the syllable.
    pub ends_with_space: bool,
}

impl LyricSyllable {
    /// A syllable with the given text and timing and no trailing space.
    pub fn new(text: String, start_ms: u64, end_ms: u64) -> (r: LyricSyllable)
        ensures
            r.text@ == text@,
            r.start_ms == start_ms,
            r.end_ms == end_ms,
            r.duration_ms is None,
            !r.ends_with_space,
    {
        LyricSyllable { text, start_ms, end_ms, duration_ms: None, ends_with_space: false }
    }
}

impl Default for LyricSyllable {
    fn default() -> (r: Self)
        ensures
            r.text@.len() == 0,
            r.start_ms == 0,
            r.end_ms == 0,
            r.duration_ms is None,
            !r.ends_with_space,
    {
        LyricSyllable::new(String::new(), 0, 0)
    }
}

/// A semantic word (a group of syllables), mainly for furigana.
#[derive(Debug)]
pub struct Word {
    /// The syllables of the word.
    pub syllables: Vec<LyricSyllable>,
    /// Optional furigana.
    pub furigana: Option<Vec<FuriganaSyllable>>,
}

impl Default for Word {
    fn default() -> (r: Self)
        ensures
            r.syllables@.len() == 0,
            r.furigana is None,
    {
        Word { syllables: Vec::new(), furigana: None }
    }
}

/// A track of lyrics: words and metadata.
#[derive(Debug)]
pub struct LyricTrack {
    /// The words of the track.
    pub words: Vec<Word>,
    /// Metadata entries, each key at most once.
    pub metadata: Vec<(TrackMetadataKey, String)>,
}

impl Default for LyricTrack {
    fn default() -> (r: Self)
        ensures
            r.words@.len() == 0,
            r.metadata@.len() == 0,
    {
        LyricTrack { words: Vec::new(), metadata: Vec::new() }
    }
}

/// A content track with its annotation tracks.
#[derive(Debug)]
pub struct AnnotatedTrack {
    /// The kind of the content track.
    pub content_type: ContentType,
    /// The content track itself.
    pub content: LyricTrack,
    /// Translations of the content.
    pub translations: Vec<LyricTrack>,
    /// Romanisations of the content.
    pub romanizations: Vec<LyricTrack>,
}

impl AnnotatedTrack {
    /// An annotated track of the given kind with nothing in it.
    pub fn empty(content_type: ContentType) -> (r: AnnotatedTrack)
        ensures
            r.content_type == content_type,
            r.content.words@.len() == 0,
            r.content.metadata@.len() == 0,
            r.translations@.len() == 0,
            r.romanizations@.len() == 0,
    {
        AnnotatedTrack {
            content_type,
            content: LyricTrack::default(),
            translations: Vec::new(),
            romanizations: Vec::new(),
        }
    }
}

impl Default for AnnotatedTrack {
    fn default() -> (r: Self)
        ensures
            r.content_type == ContentType::Main,
            r.content.words@.len() == 0,
            r.content.metadata@.len() == 0,
            r.translations@.len() == 0,
            r.romanizations@.len() == 0,
    {
        AnnotatedTrack::empty(ContentType::Main)
    }
}

/// All syllables of a sequence of words, in order.
pub open spec fn word_syllables(words: Seq<Word>) -> Seq<LyricSyllable>
    decreases words.len(),
{
    if words.len() == 0 {
        Seq::empty()
    } else {
        word_syllables(words.drop_last()) + words.last().syllables@
    }
}

/// All syllables of a track, in order.
pub open spec fn track_syllables(t: LyricTrack) -> Seq<LyricSyllable> {
    word_syllables(t.words@)
}

/// The text that one syllable contributes to its track's text.
pub open spec fn syllable_piece(s: LyricSyllable) -> Seq<char> {
    if s.ends_with_space {
        s.text@.push(' ')
    } else {
        s.text@
    }
}

/// The texts of syllables concatenated, each followed by its space.
pub open spec fn joined_pieces(syls: Seq<LyricSyllable>) -> Seq<char>
    decreases syls.len(),
{
    if syls.len() == 0 {
        Seq::empty()
    } else {
        joined_pieces(syls.drop_last()) + syllable_piece(syls.last())
    }
}

/// The text of a track: its syllables' texts, spaces kept, end trimmed.
pub open spec fn track_text(t: LyricTrack) -> Seq<char> {
    trim_end(joined_pieces(track_syllables(t)))
}

/// Concatenation distributes over the pieces of two runs of syllables.
pub proof fn lemma_joined_pieces_append(a: Seq<LyricSyllable>, b: Seq<LyricSyllable>)
    ensures
        joined_pieces(a + b) == joined_pieces(a) + joined_pieces(b),
    decreases b.len(),
{
    if b.len() == 0 {
        assert(a + b =~= a);
        assert(joined_pieces(a) + joined_pieces(b) =~= joined_pieces(a));
    } else {
        lemma_joined_pieces_append(a, b.drop_last());
        assert((a + b).drop_last() =~= a + b.drop_last());
        assert((a + b).last() == b.last());
        assert(joined_pieces(a + b) =~= joined_pieces(a) + joined_pieces(b));
    }
}

impl LyricTrack {
    /// The text of the track: all syllable texts concatenated, each followed
    /// by a space when it ends with one, with trailing whitespace removed.
    pub fn text(&self) -> (r: String)
        ensures
            r@ == track_text(*self),
    {
        let mut out = String::new();
        let mut i: usize = 0;
        while i < self.words.len()
            invariant
                i <= self.words@.len(),
                out@ == joined_pieces(word_syllables(self.words@.take(i as int))),
            decreases self.words@.len() - i,
        {
            let w = &self.words[i];
            let ghost before = out@;
            let mut j: usize = 0;
            while j < w.syllables.len()
                invariant
                    j <= w.syllables@.len(),
                    w == self.words@[i as int],
                    out@ == before + joined_pieces(w.syllables@.take(j as int)),
                decreases w.syllables@.len() - j,
            {
                let s = &w.syllables[j];
                push_str(&mut out, s.text.as_str());
                if s.ends_with_space {
                    push_char(&mut out, ' ');
                }
                assert(w.syllables@.take(j + 1).drop_last() =~= w.syllables@.take(j as int));
                j = j + 1;
            }
            proof {
                assert(w.syllables@.take(j as int) =~= w.syllables@);
                assert(self.words@.take(i + 1).drop_last() =~= self.words@.take(i as int));
                lemma_joined_pieces_append(word_syllables(self.words@.take(i as int)), w.syllables@);
            }
            i = i + 1;
        }
        assert(self.words@.take(i as int) =~= self.words@);
        trim_end_string(out.as_str())
    }
}

// ---------------------------------------------------------------------------
// Agents
// ---------------------------------------------------------------------------

/// The kind of a singer.
#[derive(Debug, Clone, Copy, PartialEq, Eq, Structural)]
pub enum AgentType {
    /// One person.
    Person,
    /// A group or chorus.
    Group,
    /// Unspecified or another kind.
    Other,
}

impl Default for AgentType {
    fn default() -> (r: Self)
        ensures
            r == AgentType::Person,
    {
        AgentType::Person
    }
}

/// A singer of the lyrics.
#[derive(Debug)]
pub struct Agent {
    /// Internal id such as `"v1"`.
    pub id: String,
    /// Optional full name.
    pub name: Option<String>,
    /// The kind of singer.
    pub agent_type: AgentType,
}

/// The mathematical value of an agent.
pub struct AgentView {
    pub id: Seq<char>,
    pub name: Option<Seq<char>>,
    pub agent_type: AgentType,
}

/// The text of an optional string.
pub open spec fn opt_text(o: Option<String>) -> Option<Seq<char>> {
    match o {
        Some(s) => Some(s@),
        None => None,
    }
}

impl View for Agent {
    type V = AgentView;

    open spec fn view(&self) -> AgentView {
        AgentView { id: self.id@, name: opt_text(self.name), agent_type: self.agent_type }
    }
}

/// The agents of a lyric document, keyed by id.
#[derive(Debug)]
pub struct AgentStore {
    /// The agents, each id at most once, in order of first insertion.
    agents_by_id: Vec<Agent>,
}

/// The position of the agent with id `id`, if any.
pub open spec fn agent_index(agents: Seq<Agent>, id: Seq<char>) -> Option<int>
    decreases agents.len(),
{
    if agents.len() == 0 {
        None
    } else if agents.last().id@ == id {
        Some(agents.len() - 1)
    } else {
        agent_index(agents.drop_last(), id)
    }
}

/// What `agent_index` returns.
pub proof fn lemma_agent_index(agents: Seq<Agent>, id: Seq<char>)
    ensures
        match agent_index(agents, id) {
            Some(i) => 0 <= i < agents.len() && agents[i].id@ == id,
            None => forall|j: int| 0 <= j < agents.len() ==> #[trigger] agents[j].id@ != id,
        },
    decreases agents.len(),
{
    if agents.len() > 0 {
        lemma_agent_index(agents.drop_last(), id);
        if agents.last().id@ != id {
            assert forall|j: int| 0 <= j < agents.len() - 1 implies agents[j] == agents.drop_last()[j] by {}
        }
    }
}

/// No two agents share an id.
pub open spec fn agents_distinct(agents: Seq<Agent>) -> bool {
    forall|i: int, j: int|
        0 <= i < agents.len() && 0 <= j < agents.len() && i != j ==> #[trigger] agents[i].id@
            != #[trigger] agents[j].id@
}

/// With distinct ids, an agent is found at its own position.
pub proof fn lemma_agent_index_of(agents: Seq<Agent>, i: int)
    requires
        agents_distinct(agents),
        0 <= i < agents.len(),
    ensures
        agent_index(agents, agents[i].id@) == Some(i),
{
    lemma_agent_index(agents, agents[i].id@);
    let j = agent_index(agents, agents[i].id@).unwrap();
    if j != i {
        assert(agents[j].id@ == agents[i].id@);
    }
}

/// The map from ids to agents held by `agents`.
pub open spec fn agents_map(agents: Seq<Agent>) -> Map<Seq<char>, AgentView> {
    Map::new(|id: Seq<char>| agent_index(agents, id) is Some, |id: Seq<char>| agents[agent_index(agents, id).unwrap()]@)
}

impl View for AgentStore {
    type V = Map<Seq<char>, AgentView>;

    closed spec fn view(&self) -> Map<Seq<char>, AgentView> {
        agents_map(self.agents_by_id@)
    }
}

impl Default for AgentStore {
    fn default() -> (r: Self)
        ensures
            r.wf(),
            r@ == Map::<Seq<char>, AgentView>::empty(),
    {
        AgentStore::new()
    }
}

/// The id and the name of an agent definition `"id=name"` (or just `"id"`).
pub open spec fn agent_def_parts(def: Seq<char>) -> (Seq<char>, Option<Seq<char>>) {
    match index_of(def, '=') {
        Some(k) => (def.take(k as int), Some(def.skip(k as int + 1))),
        None => (def, None),
    }
}

/// Whether an agent definition stands for the chorus.
pub open spec fn is_chorus_def(id: Seq<char>, name: Option<Seq<char>>) -> bool {
    id == "v1000"@ || name == Some("合"@) || name == Some("合唱"@)
}

/// The agent that a definition string declares.
pub open spec fn agent_of_def(def: Seq<char>) -> AgentView {
    let (id, name) = agent_def_parts(def);
    if is_chorus_def(id, name) {
        AgentView { id, name: None, agent_type: AgentType::Group }
    } else {
        AgentView { id, name, agent_type: AgentType::Person }
    }
}

/// The agents declared by a list of definitions; a later definition of an id
/// replaces an earlier one.
pub open spec fn agents_from_defs(defs: Seq<Seq<char>>) -> Map<Seq<char>, AgentView>
    decreases defs.len(),
{
    if defs.len() == 0 {
        Map::empty()
    } else {
        let a = agent_of_def(defs.last());
        agents_from_defs(defs.drop_last()).insert(a.id, a)
    }
}

impl AgentStore {
    /// The store's internal invariant: each id at most once.
    pub closed spec fn wf(&self) -> bool {
        agents_distinct(self.agents_by_id@)
    }

    /// An empty store.
    pub fn new() -> (r: AgentStore)
        ensures
            r.wf(),
            r@ == Map::<Seq<char>, AgentView>::empty(),
    {
        let r = AgentStore { agents_by_id: Vec::new() };
        assert(r@ =~= Map::<Seq<char>, AgentView>::empty());
        r
    }

    /// The position of the agent with the given id.
    fn find(&self, id: &str) -> (r: Option<usize>)
        requires
            self.wf(),
        ensures
            r is Some <==> agent_index(self.agents_by_id@, id@) is Some,
            r is Some ==> agent_index(self.agents_by_id@, id@) == Some(r.unwrap() as int),
    {
        proof {
            lemma_agent_index(self.agents_by_id@, id@);
        }
        let mut i: usize = 0;
        while i < self.agents_by_id.len()
            invariant
                i <= self.agents_by_id@.len(),
                agents_distinct(self.agents_by_id@),
                forall|k: int| 0 <= k < i ==> #[trigger] self.agents_by_id@[k].id@ != id@,
            decreases self.agents_by_id@.len() - i,
        {
            if str_eq(self.agents_by_id[i].id.as_str(), id) {
                proof {
                    lemma_agent_index_of(self.agents_by_id@, i as int);
                }
                return Some(i);
            }
            i = i + 1;
        }
        None
    }

    /// Whether an agent with the given id exists.
    pub fn contains_id(&self, id: &str) -> (r: bool)
        requires
            self.wf(),
        ensures
            r == self@.contains_key(id@),
    {
        self.find(id).is_some()
    }

    /// The agent with the given id, if any.
    pub fn get(&self, id: &str) -> (r: Option<&Agent>)
        requires
            self.wf(),
        ensures
            match r {
                Some(a) => self@.contains_key(id@) && a@ == self@[id@],
                None => !self@.contains_key(id@),
            },
    {
        proof {
            lemma_agent_index(self.agents_by_id@, id@);
        }
        match self.find(id) {
            Some(k) => Some(&self.agents_by_id[k]),
            None => None,
        }
    }

    /// Inserts an agent under its id, replacing the one with the same id.
    pub fn insert(&mut self, agent: Agent)
        requires
            old(self).wf(),
        ensures
            final(self).wf(),
            final(self)@ == old(self)@.insert(agent.id@, agent@),
    {
        let ghost old_d = self.agents_by_id@;
        let ghost av = agent@;
        proof {
            lemma_agent_index(old_d, agent.id@);
        }
        match self.find(agent.id.as_str()) {
            Some(i) => {
                self.agents_by_id.set(i, agent);
                let ghost new_d = self.agents_by_id@;
                assert forall|a: int, b: int| 0 <= a < new_d.len() && 0 <= b < new_d.len() && a != b
                    implies #[trigger] new_d[a].id@ != #[trigger] new_d[b].id@ by {
                    assert(new_d[a].id@ == old_d[a].id@);
                    assert(new_d[b].id@ == old_d[b].id@);
                }
                assert forall|k: Seq<char>| #[trigger] agent_index(new_d, k) == agent_index(old_d, k) by {
                    lemma_agent_index(new_d, k);
                    lemma_agent_index(old_d, k);
                    if agent_index(old_d, k) is Some {
                        let j = agent_index(old_d, k).unwrap();
                        lemma_agent_index_of(old_d, j);
                        assert(new_d[j].id@ == old_d[j].id@);
                        lemma_agent_index_of(new_d, j);
                    } else {
                        assert forall|j: int| 0 <= j < new_d.len() implies #[trigger] new_d[j].id@ != k by {
                            assert(new_d[j].id@ == old_d[j].id@);
                        }
                    }
                }
                assert forall|k: Seq<char>| agents_map(new_d).contains_key(k) && k != av.id implies
                    #[trigger] agents_map(new_d)[k] == agents_map(old_d)[k] by {
                    let j = agent_index(old_d, k).unwrap();
                    lemma_agent_index(old_d, k);
                    assert(new_d[j] == old_d[j]);
                }
                assert(agents_map(new_d) =~= agents_map(old_d).insert(av.id, av));
            },
            None => {
                self.agents_by_id.push(agent);
                let ghost new_d = self.agents_by_id@;
                let ghost n = old_d.len() as int;
                assert forall|a: int, b: int| 0 <= a < new_d.len() && 0 <= b < new_d.len() && a != b
                    implies #[trigger] new_d[a].id@ != #[trigger] new_d[b].id@ by {
                    if a < n {
                        assert(new_d[a] == old_d[a]);
                        assert(old_d[a].id@ != av.id);
                    }
                    if b < n {
                        assert(new_d[b] == old_d[b]);
                        assert(old_d[b].id@ != av.id);
                    }
                }
                assert(new_d.drop_last() =~= old_d);
                assert forall|k: Seq<char>| k != av.id implies #[trigger] agent_index(new_d, k) == agent_index(old_d, k) by {}
                assert forall|k: Seq<char>| agents_map(new_d).contains_key(k) && k != av.id implies
                    #[trigger] agents_map(new_d)[k] == agents_map(old_d)[k] by {
                    let j = agent_index(old_d, k).unwrap();
                    lemma_agent_index(old_d, k);
                    assert(new_d[j] == old_d[j]);
                }
                assert(agent_index(new_d, av.id) == Some(n));
                assert(agents_map(new_d) =~= agents_map(old_d).insert(av.id, av));
            },
        }
    }

    /// All agents of the store, each once.
    pub fn all_agents(&self) -> (r: &Vec<Agent>)
        requires
            self.wf(),
        ensures
            forall|k: int| 0 <= k < r@.len() ==> #[trigger] self@.contains_key(r@[k].id@) && self@[r@[k].id@] == r@[k]@,
            forall|id: Seq<char>| #[trigger] self@.contains_key(id) ==> exists|k: int| 0 <= k < r@.len() && r@[k].id@ == id,
            agents_distinct(r@),
    {
        proof {
            assert forall|k: int| 0 <= k < self.agents_by_id@.len() implies #[trigger] self@.contains_key(self.agents_by_id@[k].id@)
                && self@[self.agents_by_id@[k].id@] == self.agents_by_id@[k]@ by {
                lemma_agent_index_of(self.agents_by_id@, k);
            }
            assert forall|id: Seq<char>| #[trigger] self@.contains_key(id) implies exists|k: int|
                0 <= k < self.agents_by_id@.len() && self.agents_by_id@[k].id@ == id by {
                lemma_agent_index(self.agents_by_id@, id);
            }
        }
        &self.agents_by_id
    }

    /// Builds the store from the `agent` metadata: each value `"id=name"` (or
    /// just `"id"`) declares an agent; the id `v1000` and the names `合` and
    /// `合唱` mark the chorus, a group without a name; every other agent is a
    /// person. A later definition of an id replaces an earlier one.
    pub fn from_metadata_store(metadata_store: &MetadataStore) -> (r: AgentStore)
        requires
            metadata_store.wf(),
        ensures
            r.wf(),
            r@ == agents_from_defs(
                if metadata_store@.contains_key(store_key("agent"@)) {
                    metadata_store@[store_key("agent"@)]
                } else {
                    Seq::empty()
                },
            ),
    {
        let mut store = AgentStore::new();
        match metadata_store.get_multiple_values_by_key("agent") {
            Some(defs) => {
                let mut i: usize = 0;
                while i < defs.len()
                    invariant
                        i <= defs@.len(),
                        store.wf(),
                        store@ == agents_from_defs(texts(defs@).take(i as int)),
                    decreases defs@.len() - i,
                {
                    let agent = agent_from_def(defs[i].as_str());
                    proof {
                        assert(texts(defs@).take(i as int + 1).drop_last() =~= texts(defs@).take(i as int));
                    }
                    store.insert(agent);
                    i = i + 1;
                }
                assert(texts(defs@).take(defs@.len() as int) =~= texts(defs@));
            },
            None => {},
        }
        store
    }
}

/// The agent that a definition string declares (see `agent_of_def`).
fn agent_from_def(def: &str) -> (a: Agent)
    ensures
        a@ == agent_of_def(def@),
{
    let v = chars_of(def);
    assert(v@.subrange(0, v@.len() as int) =~= def@);
    let (id, name) = match find_char(&v, 0, v.len(), '=') {
        Some(k) => {
            let id = string_from_range(&v, 0, k);
            let name = string_from_range(&v, k + 1, v.len());
            proof {
                assert(v@.subrange(0, k as int) =~= def@.take(k as int));
                assert(v@.subrange(k as int + 1, v@.len() as int) =~= def@.skip(k as int + 1));
            }
            (id, Some(name))
        },
        None => (to_owned_string(def), None),
    };
    let is_chorus = str_eq(id.as_str(), "v1000") || match &name {
        Some(n) => str_eq(n.as_str(), "合") || str_eq(n.as_str(), "合唱"),
        None => false,
    };
    if is_chorus {
        Agent { id, name: None, agent_type: AgentType::Group }
    } else {
        Agent { id, name, agent_type: AgentType::Person }
    }
}

// ---------------------------------------------------------------------------
// Lines
// ---------------------------------------------------------------------------

/// A line of lyrics: parallel annotated tracks and line-level information.
#[derive(Debug)]
pub struct LyricLine {
    /// The annotated tracks of the line.
    pub tracks: Vec<AnnotatedTrack>,
    /// Start time in milliseconds.
    pub start_ms: u64,
    /// End time in milliseconds.
    pub end_ms: u64,
    /// Optional singer id such as `"v1"`.
    pub agent: Option<String>,
    /// Optional song part.
    pub song_part: Option<String>,
    /// Optional iTunes key such as `"L1"`.
    pub itunes_key: Option<String>,
}

/// The tracks of the given kind, in order.
pub open spec fn tracks_of_type(tracks: Seq<AnnotatedTrack>, ct: ContentType) -> Seq<AnnotatedTrack> {
    tracks.filter(|t: AnnotatedTrack| t.content_type == ct)
}

/// A track made of one word with one syllable `text` spanning `start..end`,
/// with no trailing space.
pub open spec fn is_single_syllable_track(t: LyricTrack, text: Seq<char>, start: u64, end: u64) -> bool {
    &&& t.words@.len() == 1
    &&& t.words@[0].syllables@.len() == 1
    &&& t.words@[0].furigana is None
    &&& t.words@[0].syllables@[0].text@ == text
    &&& t.words@[0].syllables@[0].start_ms == start
    &&& t.words@[0].syllables@[0].end_ms == end
    &&& t.words@[0].syllables@[0].duration_ms is None
    &&& !t.words@[0].syllables@[0].ends_with_space
}

/// The metadata of a track is exactly the entry `(key, value)`, or nothing.
pub open spec fn has_only_entry(t: LyricTrack, key: TrackMetadataKey, value: Option<Seq<char>>) -> bool {
    match value {
        None => t.metadata@.len() == 0,
        Some(v) => t.metadata@.len() == 1 && same_track_key(t.metadata@[0].0, key) && t.metadata@[0].1@ == v,
    }
}

/// A one-syllable track for the text, spanning the given times.
pub(crate) fn single_syllable_track(text: &str, start: u64, end: u64) -> (t: LyricTrack)
    ensures
        is_single_syllable_track(t, text@, start, end),
        t.metadata@.len() == 0,
{
    let syllable = LyricSyllable::new(to_owned_string(text), start, end);
    let mut syllables = Vec::new();
    syllables.push(syllable);
    let mut words = Vec::new();
    words.push(Word { syllables, furigana: None });
    LyricTrack { words, metadata: Vec::new() }
}

/// The position of the first track of kind `ct`, if any.
pub fn first_of_type(tracks: &Vec<AnnotatedTrack>, ct: ContentType) -> (r: Option<usize>)
    ensures
        r is Some ==> r.unwrap() < tracks@.len() && tracks@[r.unwrap() as int].content_type == ct
            && forall|k: int| 0 <= k < r.unwrap() ==> #[trigger] tracks@[k].content_type != ct,
        r is None ==> forall|k: int| 0 <= k < tracks@.len() ==> #[trigger] tracks@[k].content_type != ct,
{
    let mut i: usize = 0;
    while i < tracks.len()
        invariant
            i <= tracks@.len(),
            forall|k: int| 0 <= k < i ==> #[trigger] tracks@[k].content_type != ct,
        decreases tracks@.len() - i,
    {
        if tracks[i].content_type == ct {
            return Some(i);
        }
        i = i + 1;
    }
    None
}

/// The kind of track a line's first track of that kind is, if any: the
/// position of the first track of kind `ct`.
pub open spec fn first_index_of_type(tracks: Seq<AnnotatedTrack>, ct: ContentType) -> Option<int>
    decreases tracks.len(),
{
    if tracks.len() == 0 {
        None
    } else {
        match first_index_of_type(tracks.drop_last(), ct) {
            Some(k) => Some(k),
            None => if tracks.last().content_type == ct {
                Some(tracks.len() - 1)
            } else {
                None
            },
        }
    }
}

/// `first_index_of_type` is the least index of a track of the kind.
pub proof fn lemma_first_index_of_type(tracks: Seq<AnnotatedTrack>, ct: ContentType)
    ensures
        match first_index_of_type(tracks, ct) {
            Some(k) => 0 <= k < tracks.len() && tracks[k].content_type == ct && forall|j: int|
                0 <= j < k ==> #[trigger] tracks[j].content_type != ct,
            None => forall|j: int| 0 <= j < tracks.len() ==> #[trigger] tracks[j].content_type != ct,
        },
    decreases tracks.len(),
{
    if tracks.len() > 0 {
        lemma_first_index_of_type(tracks.drop_last(), ct);
        assert forall|j: int| 0 <= j < tracks.len() - 1 implies tracks[j] == tracks.drop_last()[j] by {}
    }
}

impl Default for LyricLine {
    fn default() -> (r: Self)
        ensures
            r.tracks@.len() == 0,
            r.start_ms == 0,
            r.end_ms == 0,
            r.agent is None,
            r.song_part is None,
            r.itunes_key is None,
    {
        LyricLine::new(0, 0)
    }
}

impl LyricLine {
    /// An empty line with the given times.
    pub fn new(start_ms: u64, end_ms: u64) -> (r: Self)
        ensures
            r.tracks@.len() == 0,
            r.start_ms == start_ms,
            r.end_ms == end_ms,
            r.agent is None,
            r.song_part is None,
            r.itunes_key is None,
    {
        LyricLine {
            tracks: Vec::new(),
            start_ms,
            end_ms,
            agent: None,
            song_part: None,
            itunes_key: None,
        }
    }

    /// The annotated tracks of the given kind, in order.
    pub fn tracks_by_type(&self, content_type: ContentType) -> (r: Vec<&AnnotatedTrack>)
        ensures
            r@.len() == tracks_of_type(self.tracks@, content_type).len(),
            forall|k: int| 0 <= k < r@.len() ==> *r@[k] == #[trigger] tracks_of_type(self.tracks@, content_type)[k],
    {
        let ghost pred = |t: AnnotatedTrack| t.content_type == content_type;
        let mut r: Vec<&AnnotatedTrack> = Vec::new();
        let mut i: usize = 0;
        assert(self.tracks@.take(0).filter(pred) =~= Seq::<AnnotatedTrack>::empty()) by {
            reveal_with_fuel(Seq::filter, 1);
        }
        while i < self.tracks.len()
            invariant
                i <= self.tracks@.len(),
                pred == (|t: AnnotatedTrack| t.content_type == content_type),
                r@.len() == self.tracks@.take(i as int).filter(pred).len(),
                forall|k: int| 0 <= k < r@.len() ==> *r@[k] == #[trigger] self.tracks@.take(i as int).filter(pred)[k],
            decreases self.tracks@.len() - i,
        {
            let t = &self.tracks[i];
            proof {
                let a = self.tracks@.take(i as int);
                let b = seq![self.tracks@[i as int]];
                assert(self.tracks@.take(i + 1) =~= a + b);
                Seq::filter_distributes_over_add(a, b, pred);
                reveal_with_fuel(Seq::filter, 2);
                assert(b.drop_last() =~= Seq::<AnnotatedTrack>::empty());
            }
            if t.content_type == content_type {
                r.push(t);
            }
            i = i + 1;
        }
        assert(self.tracks@.take(i as int) =~= self.tracks@);
        r
    }

    /// The main-vocal tracks, in order.
    pub fn main_tracks(&self) -> (r: Vec<&AnnotatedTrack>)
        ensures
            r@.len() == tracks_of_type(self.tracks@, ContentType::Main).len(),
            forall|k: int| 0 <= k < r@.len() ==> *r@[k] == #[trigger] tracks_of_type(self.tracks@, ContentType::Main)[k],
    {
        self.tracks_by_type(ContentType::Main)
    }

    /// The background-vocal tracks, in order.
    pub fn background_tracks(&self) -> (r: Vec<&AnnotatedTrack>)
        ensures
            r@.len() == tracks_of_type(self.tracks@, ContentType::Background).len(),
            forall|k: int| 0 <= k < r@.len() ==> *r@[k] == #[trigger] tracks_of_type(self.tracks@, ContentType::Background)[k],
    {
        self.tracks_by_type(ContentType::Background)
    }

    /// The first main-vocal track, if any.
    pub fn main_track(&self) -> (r: Option<&AnnotatedTrack>)
        ensures
            match first_index_of_type(self.tracks@, ContentType::Main) {
                Some(k) => r is Some && *r.unwrap() == self.tracks@[k],
                None => r is None,
            },
    {
        proof {
            lemma_first_index_of_type(self.tracks@, ContentType::Main);
        }
        match first_of_type(&self.tracks, ContentType::Main) {
            Some(k) => Some(&self.tracks[k]),
            None => None,
        }
    }

    /// The first background-vocal track, if any.
    pub fn background_track(&self) -> (r: Option<&AnnotatedTrack>)
        ensures
            match first_index_of_type(self.tracks@, ContentType::Background) {
                Some(k) => r is Some && *r.unwrap() == self.tracks@[k],
                None => r is None,
            },
    {
        proof {
            lemma_first_index_of_type(self.tracks@, ContentType::Background);
        }
        match first_of_type(&self.tracks, ContentType::Background) {
            Some(k) => Some(&self.tracks[k]),
            None => None,
        }
    }

    /// The text of the first main-vocal track, if any.
    pub fn main_text(&self) -> (r: Option<String>)
        ensures
            match first_index_of_type(self.tracks@, ContentType::Main) {
                Some(k) => r is Some && r.unwrap()@ == track_text(self.tracks@[k].content),
                None => r is None,
            },
    {
        match self.main_track() {
            Some(t) => Some(t.content.text()),
            None => None,
        }
    }

    /// The text of the first background-vocal track, if any.
    pub fn background_text(&self) -> (r: Option<String>)
        ensures
            match first_index_of_type(self.tracks@, ContentType::Background) {
                Some(k) => r is Some && r.unwrap()@ == track_text(self.tracks@[k].content),
                None => r is None,
            },
    {
        match self.background_track() {
            Some(t) => Some(t.content.text()),
            None => None,
        }
    }

    /// Appends a prebuilt annotated track.
    pub fn add_track(&mut self, track: AnnotatedTrack)
        ensures
            final(self).tracks@ == old(self).tracks@.push(track),
            final(self).start_ms == old(self).start_ms,
            final(self).end_ms == old(self).end_ms,
            final(self).agent == old(self).agent,
            final(self).song_part == old(self).song_part,
            final(self).itunes_key == old(self).itunes_key,
    {
        self.tracks.push(track);
    }

    /// Appends a content track of the given kind holding one syllable with
    /// the whole text, spanning the line's times.
    pub fn add_content_track(&mut self, content_type: ContentType, text: &str)
        ensures
            final(self).tracks@.len() == old(self).tracks@.len() + 1,
            final(self).tracks@.take(old(self).tracks@.len() as int) == old(self).tracks@,
            final(self).tracks@.last().content_type == content_type,
            is_single_syllable_track(final(self).tracks@.last().content, text@, old(self).start_ms, old(self).end_ms),
            final(self).tracks@.last().content.metadata@.len() == 0,
            final(self).tracks@.last().translations@.len() == 0,
            final(self).tracks@.last().romanizations@.len() == 0,
            final(self).start_ms == old(self).start_ms,
            final(self).end_ms == old(self).end_ms,
            final(self).agent == old(self).agent,
            final(self).song_part == old(self).song_part,
            final(self).itunes_key == old(self).itunes_key,
    {
        let content = single_syllable_track(text, self.start_ms, self.end_ms);
        let track = AnnotatedTrack {
            content_type,
            content,
            translations: Vec::new(),
            romanizations: Vec::new(),
        };
        self.add_track(track);
        assert(self.tracks@.take(old(self).tracks@.len() as int) =~= old(self).tracks@);
    }

    /// Adds a one-syllable annotation track with `text` (and the given
    /// metadata entry) to every track of kind `content_type`, as a
    /// translation or a romanisation.
    fn add_annotation(
        &mut self,
        content_type: ContentType,
        text: &str,
        key: TrackMetadataKey,
        value: Option<&str>,
        as_translation: bool,
    )
        ensures
            annotation_added(*old(self), *final(self), content_type, text@, key, match value {
                Some(v) => Some(v@),
                None => None,
            }, as_translation),
    {
        let ghost old_self = *self;
        let ghost value_view: Option<Seq<char>> = match value {
            Some(v) => Some(v@),
            None => None,
        };
        let n = self.tracks.len();
        let mut i: usize = 0;
        while i < n
            invariant
                i <= n == self.tracks@.len() == old_self.tracks@.len(),
                value_view == match value {
                    Some(v) => Some(v@),
                    None => None::<Seq<char>>,
                },
                self.start_ms == old_self.start_ms,
                self.end_ms == old_self.end_ms,
                self.agent == old_self.agent,
                self.song_part == old_self.song_part,
                self.itunes_key == old_self.itunes_key,
                forall|k: int| i <= k < n ==> #[trigger] self.tracks@[k] == old_self.tracks@[k],
                forall|k: int| 0 <= k < i ==> #[trigger] track_annotated(old_self.tracks@[k], self.tracks@[k],
                    content_type, text@, key, value_view, old_self.start_ms, old_self.end_ms, as_translation),
            decreases n - i,
        {
            let ghost before = self.tracks@;
            if self.tracks[i].content_type == content_type {
                let mut t = single_syllable_track(text, self.start_ms, self.end_ms);
                match value {
                    Some(v) => {
                        t.metadata.push((key.clone_key(), to_owned_string(v)));
                    },
                    None => {},
                }
                let ghost t_final = t;
                assert(has_only_entry(t_final, key, value_view));
                if as_translation {
                    self.tracks[i].translations.push(t);
                    assert(self.tracks@[i as int].translations@.drop_last() =~= before[i as int].translations@);
                } else {
                    self.tracks[i].romanizations.push(t);
                    assert(self.tracks@[i as int].romanizations@.drop_last() =~= before[i as int].romanizations@);
                }
            }
            assert forall|k: int| 0 <= k < i implies #[trigger] track_annotated(old_self.tracks@[k], self.tracks@[k],
                content_type, text@, key, value_view, old_self.start_ms, old_self.end_ms, as_translation) by {
                assert(self.tracks@[k] == before[k]);
            }
            assert forall|k: int| i < k < n implies #[trigger] self.tracks@[k] == old_self.tracks@[k] by {
                assert(self.tracks@[k] == before[k]);
            }
            i = i + 1;
        }
    }

    /// Adds the translation `text` (with its language, if given) to every
    /// content track of kind `content_type`.
    pub fn add_translation(&mut self, content_type: ContentType, text: &str, language: Option<&str>)
        ensures
            annotation_added(*old(self), *final(self), content_type, text@, TrackMetadataKey::Language,
                match language {
                    Some(v) => Some(v@),
                    None => None,
                }, true),
    {
        self.add_annotation(content_type, text, TrackMetadataKey::Language, language, true);
    }

    /// Adds the romanisation `text` (with its scheme, if given) to every
    /// content track of kind `content_type`.
    pub fn add_romanization(&mut self, content_type: ContentType, text: &str, scheme: Option<&str>)
        ensures
            annotation_added(*old(self), *final(self), content_type, text@, TrackMetadataKey::Scheme,
                match scheme {
                    Some(v) => Some(v@),
                    None => None,
                }, false),
    {
        self.add_annotation(content_type, text, TrackMetadataKey::Scheme, scheme, false);
    }

    /// Removes every content track of kind `content_type` with its annotations.
    pub fn clear_tracks(&mut self, content_type: ContentType)
        ensures
            final(self).tracks@ == old(self).tracks@.filter(|t: AnnotatedTrack| t.content_type != content_type),
            final(self).start_ms == old(self).start_ms,
            final(self).end_ms == old(self).end_ms,
            final(self).agent == old(self).agent,
            final(self).song_part == old(self).song_part,
            final(self).itunes_key == old(self).itunes_key,
    {
        let ghost pred = |t: AnnotatedTrack| t.content_type != content_type;
        let mut old_tracks: Vec<AnnotatedTrack> = Vec::new();
        std::mem::swap(&mut old_tracks, &mut self.tracks);
        let mut kept: Vec<AnnotatedTrack> = Vec::new();
        let mut rest = old_tracks;
        let ghost all = rest@;
        let mut taken: Vec<AnnotatedTrack> = Vec::new();
        // Move the tracks out back to front, then keep those of other kinds in order.
        while rest.len() > 0
            invariant
                all == rest@ + taken@.reverse(),
            decreases rest@.len(),
        {
            let t = rest.pop().unwrap();
            proof {
                assert(all =~= rest@ + (taken@.push(t)).reverse());
            }
            taken.push(t);
        }
        assert(taken@.reverse() =~= all);
        let ghost order = all;
        let mut j: usize = taken.len();
        assert(order.take(0).filter(pred) =~= Seq::<AnnotatedTrack>::empty()) by {
            reveal_with_fuel(Seq::filter, 1);
        }
        while taken.len() > 0
            invariant
                pred == (|t: AnnotatedTrack| t.content_type != content_type),
                j == taken@.len(),
                j <= order.len(),
                taken@.reverse() == order.skip(order.len() - j),
                kept@ == order.take(order.len() - j).filter(pred),
            decreases taken@.len(),
        {
            let t = taken.pop().unwrap();
            let ghost idx = order.len() - j;
            proof {
                assert(order.skip(idx) =~= taken@.push(t).reverse());
                assert(order.skip(idx)[0] == order[idx]);
                assert(taken@.push(t).reverse()[0] == t);
                assert(order[idx] == t);
                let a = order.take(idx);
                let b = seq![t];
                assert(order.take(idx + 1) =~= a + b);
                Seq::filter_distributes_over_add(a, b, pred);
                reveal_with_fuel(Seq::filter, 2);
                assert(b.drop_last() =~= Seq::<AnnotatedTrack>::empty());
                assert(order.skip(idx + 1) =~= order.skip(idx).drop_first());
                assert(taken@.push(t).reverse().drop_first() =~= taken@.reverse());
                assert(taken@.reverse() =~= order.skip(idx + 1));
            }
            if t.content_type != content_type {
                kept.push(t);
            }
            j = j - 1;
        }
        assert(order.take(order.len() as int) =~= order);
        self.tracks = kept;
    }
}

/// `new` holds `old`'s tracks, each track of kind `ct` having gained, at the
/// end of its translations (or romanisations), one single-syllable track with
/// `text` spanning the line's times and the metadata entry given; the other
/// tracks and the line's fields are unchanged.
pub open spec fn annotation_added(
    old: LyricLine,
    new: LyricLine,
    ct: ContentType,
    text: Seq<char>,
    key: TrackMetadataKey,
    value: Option<Seq<char>>,
    as_translation: bool,
) -> bool {
    &&& new.tracks@.len() == old.tracks@.len()
    &&& new.start_ms == old.start_ms
    &&& new.end_ms == old.end_ms
    &&& new.agent == old.agent
    &&& new.song_part == old.song_part
    &&& new.itunes_key == old.itunes_key
    &&& forall|k: int| 0 <= k < old.tracks@.len() ==> #[trigger] track_annotated(old.tracks@[k], new.tracks@[k],
        ct, text, key, value, old.start_ms, old.end_ms, as_translation)
}

/// One annotated track after an annotation was added to the tracks of kind `ct`.
pub open spec fn track_annotated(
    old: AnnotatedTrack,
    new: AnnotatedTrack,
    ct: ContentType,
    text: Seq<char>,
    key: TrackMetadataKey,
    value: Option<Seq<char>>,
    start: u64,
    end: u64,
    as_translation: bool,
) -> bool {
    if old.content_type != ct {
        new == old
    } else {
        &&& new.content_type == old.content_type
        &&& new.content == old.content
        &&& if as_translation {
            &&& new.romanizations == old.romanizations
            &&& new.translations@.len() == old.translations@.len() + 1
            &&& new.translations@.drop_last() == old.translations@
            &&& is_single_syllable_track(new.translations@.last(), text, start, end)
            &&& has_only_entry(new.translations@.last(), key, value)
        } else {
            &&& new.translations == old.translations
            &&& new.romanizations@.len() == old.romanizations@.len() + 1
            &&& new.romanizations@.drop_last() == old.romanizations@
            &&& is_single_syllable_track(new.romanizations@.last(), text, start, end)
            &&& has_only_entry(new.romanizations@.last(), key, value)
        }
    }
}

impl TrackMetadataKey {
    /// A copy of the key.
    pub fn clone_key(&self) -> (r: TrackMetadataKey)
        ensures
            same_track_key(r, *self),
            r == *self || (self is Custom),
    {
        match self {
            TrackMetadataKey::Language => TrackMetadataKey::Language,
            TrackMetadataKey::Scheme => TrackMetadataKey::Scheme,
            TrackMetadataKey::Custom(s) => TrackMetadataKey::Custom(s.clone()),
        }
    }
}

// ---------------------------------------------------------------------------
// Parsing results and options
// ---------------------------------------------------------------------------

/// The lyrics parsed from a source file, ready for further processing.
#[derive(Debug)]
pub struct ParsedSourceData {
    /// The parsed lines.
    pub lines: Vec<LyricLine>,
    /// The raw (not normalised) metadata: each name with all its values.
    pub raw_metadata: Vec<(String, Vec<String>)>,
    /// The format of the source.
    pub source_format: LyricFormat,
    /// The singers found in the file.
    pub agents: AgentStore,
    /// Optional name of the source file.
    pub source_filename: Option<String>,
    /// Whether the source is timed by line.
    pub is_line_timed_source: bool,
    /// Warnings produced while parsing.
    pub warnings: Vec<String>,
    /// The raw TTML text, when the source embedded it.
    pub raw_ttml_from_input: Option<String>,
    /// Whether the input TTML was detected as formatted.
    pub detected_formatted_ttml_input: Option<bool>,
    /// Name of the provider.
    pub source_name: String,
}

/// The timing mode of TTML output.
#[derive(Debug, Clone, Copy, PartialEq, Eq, Structural)]
pub enum TtmlTimingMode {
    /// Timed by syllable.
    Word,
    /// Timed by line.
    Line,
}

impl Default for TtmlTimingMode {
    fn default() -> (r: Self)
        ensures
            r == TtmlTimingMode::Word,
    {
        TtmlTimingMode::Word
    }
}

/// Default languages for a TTML document that does not state them.
#[derive(Debug)]
pub struct DefaultLanguageOptions {
    /// Default main language.
    pub main: Option<String>,
    /// Default translation language.
    pub translation: Option<String>,
    /// Default romanisation language.
    pub romanization: Option<String>,
}

impl Default for DefaultLanguageOptions {
    fn default() -> (r: Self)
        ensures
            r.main is None,
            r.translation is None,
            r.romanization is None,
    {
        DefaultLanguageOptions { main: None, translation: None, romanization: None }
    }
}

/// Options of the TTML parser.
#[derive(Debug)]
pub struct TtmlParsingOptions {
    /// Languages to use when the document states none.
    pub default_languages: DefaultLanguageOptions,
    /// A timing mode that overrides the document's own and the detection.
    pub force_timing_mode: Option<TtmlTimingMode>,
}

impl Default for TtmlParsingOptions {
    fn default() -> (r: Self)
        ensures
            r.default_languages.main is None,
            r.default_languages.translation is None,
            r.default_languages.romanization is None,
            r.force_timing_mode is None,
    {
        TtmlParsingOptions { default_languages: DefaultLanguageOptions::default(), force_timing_mode: None }
    }
}

/// Options of the TTML writer.
#[derive(Debug)]
pub struct TtmlGenerationOptions {
    /// Timing by syllable or by line.
    pub timing_mode: TtmlTimingMode,
    /// The document language (`xml:lang`); else the metadata's language.
    pub main_language: Option<String>,
    /// Default language of inline translation spans.
    pub translation_language: Option<String>,
    /// Default language of inline romanisation spans.
    pub romanization_language: Option<String>,
    /// Whether to follow Apple Music's rules (translations in the head
    /// instead of inline).
    pub use_apple_format_rules: bool,
    /// Whether to indent the output.
    pub format: bool,
    /// Whether to split syllables into tokens automatically.
    pub auto_word_splitting: bool,
    /// The weight of a punctuation token when splitting, in thousandths of
    /// the weight of a letter.
    pub punctuation_weight_milli: u32,
}

impl Default for TtmlGenerationOptions {
    fn default() -> (r: Self)
        ensures
            r.timing_mode == TtmlTimingMode::Word,
            r.main_language is None,
            r.translation_language is None,
            r.romanization_language is None,
            !r.use_apple_format_rules,
            !r.format,
            !r.auto_word_splitting,
            r.punctuation_weight_milli == 300,
    {
        TtmlGenerationOptions {
            timing_mode: TtmlTimingMode::Word,
            main_language: None,
            translation_language: None,
            romanization_language: None,
            use_apple_format_rules: false,
            format: false,
            auto_word_splitting: false,
            punctuation_weight_milli: 300,
        }
    }
}

} // verus!
