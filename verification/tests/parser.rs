use ttml_processor::generator::generate_ttml;
use ttml_processor::metadata::MetadataStore;
use ttml_processor::parser::parse_ttml;
use ttml_processor::types::{ContentType, ConvertError, TtmlGenerationOptions, TtmlParsingOptions};

const SAMPLE: &str = r#"<tt xmlns="http://www.w3.org/ns/ttml" xmlns:ttm="http://www.w3.org/ns/ttml#metadata" xmlns:itunes="http://music.apple.com/lyric-ttml-internal" xmlns:amll="http://www.example.com/ns/amll" itunes:timing="Word" xml:lang="ja"><head><metadata><ttm:agent type="person" xml:id="v1"><ttm:name type="full">Singer One</ttm:name></ttm:agent><ttm:agent type="group" xml:id="v2"/><amll:meta key="musicName" value="Song"/><amll:meta key="artists" value="Artist A"/><iTunesMetadata xmlns="http://music.apple.com/lyric-ttml-internal"><translations><translation type="subtitle" xml:lang="en"><text for="L1">Hello there</text></translation></translations><songwriters><songwriter>Writer W</songwriter></songwriters></iTunesMetadata></metadata></head><body dur="5.000"><div begin="1.000" end="5.000" itunes:song-part="Verse"><p begin="1.000" end="3.000" itunes:key="L1" ttm:agent="v1"><span begin="1.000" end="1.500">Hel</span><span begin="1.500" end="2.000">lo</span> <span begin="2.000" end="3.000">world</span><span ttm:role="x-bg" begin="2.500" end="3.500"><span begin="2.500" end="3.500">(ah)</span></span></p><p begin="3.000" end="5.000" itunes:key="L2" ttm:agent="v2"><span begin="3.000" end="5.000">second</span><span ttm:role="x-translation" xml:lang="en">two</span></p></div></body></tt>"#;

fn syllable_texts(line: &ttml_processor::types::LyricLine, ct: ContentType) -> Vec<String> {
    let mut out = Vec::new();
    for t in &line.tracks {
        if t.content_type == ct {
            for w in &t.content.words {
                for s in &w.syllables {
                    out.push(s.text.clone());
                }
            }
        }
    }
    out
}

#[test]
fn parses_lines_syllables_and_background() {
    let data = parse_ttml(SAMPLE, &TtmlParsingOptions::default()).unwrap();
    assert_eq!(data.lines.len(), 2);
    let l1 = &data.lines[0];
    assert_eq!(l1.start_ms, 1000);
    // the end becomes the latest end of the syllables (background included)
    assert_eq!(l1.end_ms, 3500);
    assert_eq!(l1.agent.as_deref(), Some("v1"));
    assert_eq!(l1.song_part.as_deref(), Some("Verse"));
    assert_eq!(l1.itunes_key.as_deref(), Some("L1"));
    assert_eq!(syllable_texts(l1, ContentType::Main), vec!["Hel", "lo", "world"]);
    assert_eq!(syllable_texts(l1, ContentType::Background), vec!["ah"]);
    let main = l1.tracks.iter().find(|t| t.content_type == ContentType::Main).unwrap();
    // the space between "lo" and "world" belongs to "lo"
    assert!(!main.content.words[0].syllables[0].ends_with_space);
    assert!(main.content.words[0].syllables[1].ends_with_space);
    // the line translated in the head is attached to the main track
    assert_eq!(main.translations.len(), 1);
    assert_eq!(main.translations[0].words[0].syllables[0].text, "Hello there");
    let l2 = &data.lines[1];
    assert_eq!(syllable_texts(l2, ContentType::Main), vec!["second"]);
    let main2 = l2.tracks.iter().find(|t| t.content_type == ContentType::Main).unwrap();
    assert_eq!(main2.translations[0].words[0].syllables[0].text, "two");
    assert!(data.detected_formatted_ttml_input == Some(false));
    assert_eq!(data.raw_ttml_from_input.as_deref(), Some(SAMPLE));
}

#[test]
fn parses_agents_and_metadata() {
    let data = parse_ttml(SAMPLE, &TtmlParsingOptions::default()).unwrap();
    let v1 = data.agents.get("v1").unwrap();
    assert_eq!(v1.name.as_deref(), Some("Singer One"));
    let v2 = data.agents.get("v2").unwrap();
    assert!(v2.name.is_none());
    let mut store = MetadataStore::new();
    store.load_from_raw(&data.raw_metadata);
    assert_eq!(store.get_single_value(&ttml_processor::metadata::CanonicalMetadataKey::Title).map(|s| s.as_str()), Some("Song"));
    assert_eq!(
        store.get_single_value(&ttml_processor::metadata::CanonicalMetadataKey::Songwriter).map(|s| s.as_str()),
        Some("Writer W")
    );
    assert_eq!(store.get_multiple_values_by_key("xml:lang_root").unwrap(), &vec!["ja".to_string()]);
}

#[test]
fn line_timing_without_timed_spans() {
    let doc = r#"<tt xmlns="http://www.w3.org/ns/ttml"><body><div><p begin="00:01.000" end="00:02.500">Just a   line</p></div></body></tt>"#;
    let data = parse_ttml(doc, &TtmlParsingOptions::default()).unwrap();
    assert!(data.is_line_timed_source);
    assert_eq!(data.lines.len(), 1);
    assert_eq!(syllable_texts(&data.lines[0], ContentType::Main), vec!["Just a line"]);
    assert_eq!(data.lines[0].start_ms, 1000);
    assert_eq!(data.lines[0].end_ms, 2500);
    assert!(data.warnings.iter().any(|w| w.contains("逐行")));
}

#[test]
fn empty_paragraphs_are_dropped() {
    let doc = r#"<tt xmlns="http://www.w3.org/ns/ttml"><body><div><p begin="1" end="2"></p><p begin="2" end="3"><span begin="2" end="3">x</span></p></div></body></tt>"#;
    let data = parse_ttml(doc, &TtmlParsingOptions::default()).unwrap();
    assert_eq!(data.lines.len(), 1);
    assert_eq!(data.lines[0].start_ms, 2000);
}

#[test]
fn invalid_timestamps_are_dropped_with_a_warning() {
    let doc = r#"<tt xmlns="http://www.w3.org/ns/ttml"><body><div><p begin="1" end="2"><span begin="aaaaa" end="2">x</span></p></div></body></tt>"#;
    let data = parse_ttml(doc, &TtmlParsingOptions::default()).unwrap();
    assert!(data.warnings.iter().any(|w| w.contains("aaaaa")));
}

#[test]
fn direct_agent_names_get_ids() {
    let doc = r#"<tt xmlns="http://www.w3.org/ns/ttml"><body><div><p begin="1" end="2" ttm:agent="Alice"><span begin="1" end="2">a</span></p><p begin="2" end="3" ttm:agent="Alice"><span begin="2" end="3">b</span></p><p begin="3" end="4" ttm:agent="Bob"><span begin="3" end="4">c</span></p></div></body></tt>"#;
    let data = parse_ttml(doc, &TtmlParsingOptions::default()).unwrap();
    assert_eq!(data.lines[0].agent.as_deref(), Some("v1"));
    assert_eq!(data.lines[1].agent.as_deref(), Some("v1"));
    assert_eq!(data.lines[2].agent.as_deref(), Some("v2"));
    assert_eq!(data.agents.get("v2").unwrap().name.as_deref(), Some("Bob"));
}

#[test]
fn entity_references_are_decoded() {
    let doc = r#"<tt xmlns="http://www.w3.org/ns/ttml"><body><div><p begin="1" end="2"><span begin="1" end="2">R&amp;B &#x41;</span></p></div></body></tt>"#;
    let data = parse_ttml(doc, &TtmlParsingOptions::default()).unwrap();
    assert_eq!(syllable_texts(&data.lines[0], ContentType::Main), vec!["R&B A"]);
}

#[test]
fn unclosed_document_is_recovered_or_reported() {
    let doc = r#"<tt xmlns="http://www.w3.org/ns/ttml"><body><div><p begin="1" end="2"><span begin="1" end="2">x</span></div></body></tt>"#;
    match parse_ttml(doc, &TtmlParsingOptions::default()) {
        Ok(data) => assert!(!data.warnings.is_empty()),
        Err(e) => assert!(matches!(e, ConvertError::Xml(_))),
    }
}

#[test]
fn generated_ttml_parses_back_to_the_same_lines() {
    let data = parse_ttml(SAMPLE, &TtmlParsingOptions::default()).unwrap();
    let mut store = MetadataStore::new();
    store.load_from_raw(&data.raw_metadata);
    for format in [false, true] {
        let options = TtmlGenerationOptions { format, ..Default::default() };
        let out = generate_ttml(&data.lines, &store, &data.agents, &options).unwrap();
        assert!(out.starts_with("<tt"));
        let again = parse_ttml(&out, &TtmlParsingOptions::default()).unwrap();
        assert_eq!(again.lines.len(), data.lines.len());
        for (a, b) in again.lines.iter().zip(data.lines.iter()) {
            assert_eq!(a.start_ms, b.start_ms);
            assert_eq!(a.end_ms, b.end_ms);
            assert_eq!(syllable_texts(a, ContentType::Main), syllable_texts(b, ContentType::Main));
            assert_eq!(syllable_texts(a, ContentType::Background), syllable_texts(b, ContentType::Background));
        }
    }
}

#[test]
fn generated_ttml_has_keys_times_and_agents() {
    let data = parse_ttml(SAMPLE, &TtmlParsingOptions::default()).unwrap();
    let mut store = MetadataStore::new();
    store.load_from_raw(&data.raw_metadata);
    let out = generate_ttml(&data.lines, &store, &data.agents, &TtmlGenerationOptions::default()).unwrap();
    assert!(out.contains(r#"<p begin="1.000" end="3.500" itunes:key="L1" ttm:agent="v1">"#));
    assert!(out.contains(r#"itunes:key="L2""#));
    assert!(out.contains(r#"<ttm:agent type="person" xml:id="v1"><ttm:name type="full">Singer One</ttm:name></ttm:agent>"#));
    assert!(out.contains(r#"<amll:meta key="musicName" value="Song"/>"#));
    assert!(out.contains(r#"xmlns:amll="http://www.example.com/ns/amll""#));
    assert!(out.contains(r#"<body dur="5.000">"#));
    assert!(out.contains(r#"itunes:song-part="Verse""#));
    assert!(out.contains(r#"<span ttm:role="x-bg" begin="2.500" end="3.500"><span begin="2.500" end="3.500">(ah)</span></span>"#));
}

#[test]
fn empty_lyrics_give_an_empty_body() {
    let store = MetadataStore::new();
    let data = parse_ttml(r#"<tt xmlns="http://www.w3.org/ns/ttml"><body></body></tt>"#, &TtmlParsingOptions::default()).unwrap();
    let out = generate_ttml(&[], &store, &data.agents, &TtmlGenerationOptions::default()).unwrap();
    assert!(out.contains("<body/>"));
}

#[test]
fn automatic_splitting_shares_time_by_weight() {
    let doc = r#"<tt xmlns="http://www.w3.org/ns/ttml" itunes:timing="Word"><body><div><p begin="0" end="1"><span begin="0" end="1">ab cd</span></p></div></body></tt>"#;
    let data = parse_ttml(doc, &TtmlParsingOptions::default()).unwrap();
    let store = MetadataStore::new();
    let options = TtmlGenerationOptions { auto_word_splitting: true, ..Default::default() };
    let out = generate_ttml(&data.lines, &store, &data.agents, &options).unwrap();
    assert!(out.contains(r#"<span begin="0.000" end="0.500">ab</span><span begin="0.500" end="1.000">cd</span>"#), "{out}");
}

#[test]
fn apple_rules_list_line_translations_and_songwriters_in_the_head() {
    let data = parse_ttml(SAMPLE, &TtmlParsingOptions::default()).unwrap();
    let mut store = MetadataStore::new();
    store.load_from_raw(&data.raw_metadata);
    let options = TtmlGenerationOptions { use_apple_format_rules: true, ..Default::default() };
    let out = generate_ttml(&data.lines, &store, &data.agents, &options).unwrap();
    assert!(out.contains(r#"<iTunesMetadata xmlns="http://music.apple.com/lyric-ttml-internal"><translations><translation type="subtitle" xml:lang="en"><text for="L1">Hello there</text><text for="L2">two</text></translation></translations>"#), "{out}");
    assert!(out.contains("<songwriters><songwriter>Writer W</songwriter></songwriters>"), "{out}");
}

#[test]
fn apple_rules_without_annotations_write_no_itunes_block() {
    let doc = r#"<tt xmlns="http://www.w3.org/ns/ttml" itunes:timing="Word"><body><div><p begin="0" end="1"><span begin="0" end="1">ab</span></p></div></body></tt>"#;
    let data = parse_ttml(doc, &TtmlParsingOptions::default()).unwrap();
    let store = MetadataStore::new();
    let options = TtmlGenerationOptions { use_apple_format_rules: true, ..Default::default() };
    let out = generate_ttml(&data.lines, &store, &data.agents, &options).unwrap();
    assert!(!out.contains("iTunesMetadata"), "{out}");
}

#[test]
fn automatic_splitting_spans_follow_one_another_in_order() {
    let doc = r#"<tt xmlns="http://www.w3.org/ns/ttml" itunes:timing="Word"><body><div><p begin="0" end="2.3"><span begin="0" end="2.3">ab, cd</span></p></div></body></tt>"#;
    let data = parse_ttml(doc, &TtmlParsingOptions::default()).unwrap();
    let store = MetadataStore::new();
    let options = TtmlGenerationOptions { auto_word_splitting: true, ..Default::default() };
    let out = generate_ttml(&data.lines, &store, &data.agents, &options).unwrap();
    let first = out.find(r#"<span begin="0.000" end="1.070">ab</span>"#).expect(&out);
    let second = out.find(r#"<span begin="1.070" end="1.230">,</span>"#).expect(&out);
    let third = out.find(r#"<span begin="1.230" end="2.300">cd</span>"#).expect(&out);
    assert!(first < second && second < third, "{out}");
}
