use ttml_processor::checker;
use ttml_processor::metadata::{CanonicalMetadataKey, MetadataStore};
use ttml_processor::model::{LyricLine as BotLine, Syllable, TTMLMetadata, TTMLResult};
use ttml_processor::snippet::{
    calculate_span, get_error_name, get_help_suggestion, render_parse_error, ParseErrorContext, ParseErrorKind,
    TTMLProcessorError,
};
use ttml_processor::types::{ConvertError, LyricLine};
use ttml_processor::validator;

fn syl(start: u32, end: u32, text: &str) -> Syllable {
    Syllable { start_time: start, end_time: end, text: text.to_string(), ends_with_space: None }
}

fn bot_line(start: u32, end: u32, text: &str, words: Option<Vec<Syllable>>) -> BotLine {
    BotLine {
        start_time: start,
        end_time: end,
        text: text.to_string(),
        words,
        translations: None,
        romanizations: None,
        background_vocal: None,
        agent_id: None,
    }
}

fn full_meta() -> TTMLMetadata {
    TTMLMetadata {
        title: Some("t".to_string()),
        artist: Some("a".to_string()),
        album: Some("b".to_string()),
        platform_ids: Some(vec![("ncm".to_string(), "1".to_string())]),
    }
}

#[test]
fn bot_check_passes_good_lyrics() {
    let r = TTMLResult { lines: vec![bot_line(0, 1000, "hi", Some(vec![syl(0, 1000, "hi")]))], metadata: full_meta() };
    assert!(checker::validate_lyrics_and_metadata(&r).is_ok());
}

#[test]
fn bot_check_reports_every_problem_in_order() {
    let meta = TTMLMetadata { title: None, artist: None, album: Some("b".to_string()), platform_ids: Some(vec![]) };
    let lines = vec![
        bot_line(0, 0, "  ", None),
        bot_line(2000, 1000, "x", Some(vec![syl(500, 400, "a"), syl(100, 200, "b"), syl(0, 0, " ")])),
    ];
    let errors = checker::validate_lyrics_and_metadata(&TTMLResult { lines, metadata: meta }).unwrap_err();
    assert_eq!(
        errors,
        vec![
            "歌词文件中未包含歌曲名称信息 (缺失 musicName 元数据)",
            "歌词文件中未包含音乐作者信息 (缺失 artists 元数据)",
            "歌词文件中未包含任何音乐平台 ID",
            "第 1 行歌词内容为空",
            "第 2 行歌词结束时间 (1000) 小于开始时间 (2000)",
            "第 2 行第 1 个音节 'a' 结束时间 (400) 小于开始时间 (500)",
            "第 2 行第 2 个音节 'b' 的开始时间 (100) 出现倒流 (早于前一个音节的结束时间 500)",
        ]
    );
}

#[test]
fn bot_check_empty_and_untimed() {
    let e = checker::validate_lyrics_and_metadata(&TTMLResult { lines: vec![], metadata: full_meta() }).unwrap_err();
    assert_eq!(e, vec!["歌词内容为空"]);
    let e = checker::validate_lyrics_and_metadata(&TTMLResult {
        lines: vec![bot_line(0, 0, "x", None)],
        metadata: full_meta(),
    })
    .unwrap_err();
    assert_eq!(e, vec!["所有歌词的时间戳均为 0"]);
    assert!(!checker::has_any_non_zero_timestamp(&[bot_line(0, 0, "x", Some(vec![syl(0, 0, "x")]))]));
    assert!(checker::has_any_non_zero_timestamp(&[bot_line(0, 0, "x", Some(vec![syl(0, 5, "x")]))]));
}

fn store(entries: &[(&str, &str)]) -> MetadataStore {
    let mut s = MetadataStore::new();
    for (k, v) in entries {
        s.add(k, v).unwrap();
    }
    s
}

#[test]
fn processor_check_reports_missing_metadata_and_empty_lyrics() {
    let lines: Vec<LyricLine> = Vec::new();
    let errors = validator::validate_lyrics_and_metadata(&lines, &store(&[("musicName", "t")])).unwrap_err();
    assert_eq!(errors[0], "歌词文件中未包含音乐作者信息 (缺失 artists 元数据)。");
    assert_eq!(errors[1], "歌词文件中未包含专辑信息 (缺失 album 元数据)。(注：如果是单曲专辑请和歌曲名称同名)");
    assert_eq!(errors[2], "歌词文件中未包含任何音乐平台 ID。");
    assert_eq!(errors[3], "歌词内容为空。");
    assert_eq!(errors.len(), 4);
}

#[test]
fn metadata_store_keys_values_and_cleaning() {
    let mut s = store(&[("ARTISTS", " b "), ("ar", "a"), ("artist", "b"), ("custom", "x"), ("musicName", "  ")]);
    assert_eq!(
        s.get_multiple_values(&CanonicalMetadataKey::Artist).unwrap(),
        &vec!["b".to_string(), "a".to_string(), "b".to_string()]
    );
    assert!(s.get_single_value(&CanonicalMetadataKey::Title).is_none());
    assert_eq!(s.get_multiple_values_by_key("custom").unwrap(), &vec!["x".to_string()]);
    s.deduplicate_values();
    assert_eq!(
        s.get_multiple_values(&CanonicalMetadataKey::Artist).unwrap(),
        &vec!["a".to_string(), "b".to_string()]
    );
    s.remove("artists");
    assert!(s.get_multiple_values(&CanonicalMetadataKey::Artist).is_none());
    s.set_multiple("album", vec!["x".to_string(), "y".to_string()]);
    assert_eq!(s.get_single_value(&CanonicalMetadataKey::Album).map(|v| v.as_str()), Some("x"));
    s.clear();
    assert!(s.get_all_data().is_empty());
}

#[test]
fn metadata_loaded_from_raw_entries() {
    let mut s = MetadataStore::new();
    s.load_from_raw(&vec![
        ("musicName".to_string(), vec!["Song".to_string(), " ".to_string()]),
        ("title".to_string(), vec!["Other".to_string()]),
    ]);
    assert_eq!(
        s.get_multiple_values(&CanonicalMetadataKey::Title).unwrap(),
        &vec!["Song".to_string(), "Other".to_string()]
    );
}

#[test]
fn convert_error_messages() {
    assert_eq!(ConvertError::InvalidTime("x".to_string()).message(), "无效的时间格式: x");
    assert_eq!(ConvertError::Xml("bad".to_string()).message(), "生成 XML 错误: bad");
}

#[test]
fn error_names_and_hints() {
    assert_eq!(get_error_name(&ParseErrorKind::UnexpectedEof), "UnexpectedEof");
    assert_eq!(get_error_name(&ParseErrorKind::InvalidTimestamp("x".to_string())), "InvalidTimestamp");
    assert_eq!(
        get_help_suggestion(&ParseErrorKind::XmlError("x".to_string())),
        "Please check the file for XML syntax errors."
    );
}

#[test]
fn span_points_at_the_text_on_the_offset_line() {
    let text = "a=\"x\"\n<p begin=\"bad\" end=\"bad\">";
    // the last "bad" before the offset, on the offset's line
    let off = text.len() as u64;
    assert_eq!(calculate_span(text, off, &ParseErrorKind::InvalidTimestamp("bad".to_string())), (26, 29));
    // a text not on the line gives the empty span at the offset
    assert_eq!(calculate_span(text, 6, &ParseErrorKind::EntityError("bad".to_string())), (6, 6));
    // an offset past the end is clamped
    assert_eq!(calculate_span(text, 1000, &ParseErrorKind::UnexpectedEof), (text.len(), text.len()));
}

#[test]
fn test_parse_error_rendering() {
    let broken_xml = r#"<tt xmlns="http://www.w3.org/ns/ttml" xml:lang="zh">
    <head>
        <metadata>
            <ttm:agent type="person" xml:id="v1">
                <ttm:name type="full">Ryan Gosling</ttm:name>
            </ttm:agent>
        </metadata>
    </head>
    <body>
        <div itunes:songPart="Verse">
            <p begin="10.522" end="13.518" itunes:key="L1" ttm:agent="v1">
                <span begin="aaaaa" end="13.518">test</span>
            </p>
        </div>
    </body>
</tt>"#;
    // the error the parser reports after reading the span's start tag
    let offset = broken_xml.find(">test</span>").unwrap() + 1;
    let err = TTMLProcessorError::ParseError {
        kind: ParseErrorKind::InvalidTimestamp("aaaaa".to_string()),
        context: ParseErrorContext {
            byte_offset: offset as u64,
            tag_stack: ["tt", "body", "div", "p", "span"].iter().map(|s| s.to_string()).collect(),
        },
    };

    if let TTMLProcessorError::ParseError { kind, context } = &err {
        if let ParseErrorKind::InvalidTimestamp(s) = kind {
            assert_eq!(s.as_str(), "aaaaa");
        }

        assert_eq!(context.tag_stack.join(" > "), "tt > body > div > p > span");
    }

    let rendered_snippet = render_parse_error(&err, broken_xml, "test.ttml");
    assert!(rendered_snippet.contains("error[InvalidTimestamp]"));
    assert!(rendered_snippet.contains("Invalid timestamp format: aaaaa"));
    assert!(rendered_snippet.contains("test.ttml:12:30"));
    assert!(rendered_snippet.contains("Tag stack: tt > body > div > p > span"));
}

#[test]
fn other_errors_render_as_their_message() {
    let err = TTMLProcessorError::Other("boom".to_string());
    assert_eq!(render_parse_error(&err, "", "f"), "boom");
}

#[test]
fn entity_references_decode() {
    use_entity("amp", '&', 0);
    use_entity("quot", '"', 0);
    use_entity("#65", 'A', 0);
    use_entity("#+65", 'A', 0);
    use_entity("#x4E2D", '中', 0);
    use_entity("#x110000", '\0', 0);
    use_entity("#xZZ", '\0', 1);
    use_entity("#", '\0', 1);
    use_entity("nbsp", '\0', 1);
}

fn use_entity(name: &str, expected: char, n_warnings: usize) {
    let mut warnings = Vec::new();
    assert_eq!(ttml_processor::parser::decode_entity(name, &mut warnings), expected);
    assert_eq!(warnings.len(), n_warnings);
    if n_warnings == 1 {
        assert!(warnings[0].contains(&format!("'&{name};'")));
    }
}

#[test]
fn unreadable_key_message() {
    let e = CanonicalMetadataKey::from_str("").unwrap_err();
    assert_eq!(e.message(), "未知或无效的元数据键: ");
}

#[test]
fn metadata_loaded_in_two_parts_equals_loaded_at_once() {
    let a = vec![("artists".to_string(), vec!["x".to_string(), "y".to_string()])];
    let b = vec![("ar".to_string(), vec!["z".to_string()]), ("album".to_string(), vec![" w ".to_string()])];
    let mut parts = MetadataStore::new();
    parts.load_from_raw(&a);
    parts.load_from_raw(&b);
    let mut joined = MetadataStore::new();
    let mut all = a.clone();
    all.extend(b.clone());
    joined.load_from_raw(&all);
    assert_eq!(parts.get_multiple_values(&CanonicalMetadataKey::Artist), joined.get_multiple_values(&CanonicalMetadataKey::Artist));
    assert_eq!(
        parts.get_multiple_values(&CanonicalMetadataKey::Artist).unwrap(),
        &vec!["x".to_string(), "y".to_string(), "z".to_string()]
    );
    assert_eq!(parts.get_single_value(&CanonicalMetadataKey::Album).map(|v| v.as_str()), Some("w"));
    assert_eq!(joined.get_single_value(&CanonicalMetadataKey::Album).map(|v| v.as_str()), Some("w"));
}

#[test]
fn bot_check_passes_exactly_when_syllables_are_in_order() {
    let ordered = vec![bot_line(0, 1000, "ab", Some(vec![syl(0, 500, "a"), syl(600, 600, " "), syl(500, 700, "b")]))];
    assert!(checker::validate_lyrics_and_metadata(&TTMLResult { lines: ordered, metadata: full_meta() }).is_ok());
    let overlapping = vec![bot_line(0, 1000, "ab", Some(vec![syl(0, 500, "a"), syl(400, 700, "b")]))];
    let e = checker::validate_lyrics_and_metadata(&TTMLResult { lines: overlapping, metadata: full_meta() }).unwrap_err();
    assert_eq!(e, vec!["第 1 行第 2 个音节 'b' 的开始时间 (400) 出现倒流 (早于前一个音节的结束时间 500)"]);
}
