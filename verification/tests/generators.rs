use ttml_processor::lrc::{
    EndTimestampMode, InlineBracket, LrcMode, LrcTypeGenerator, LrcTypeGeneratorOptions,
};
use ttml_processor::lys::LysGenerator;
use ttml_processor::model::{AuxText, BackgroundLine, LyricLine, Syllable, TTMLMetadata, TTMLResult};
use ttml_processor::yrc::YrcGenerator;

fn syl(start: u32, end: u32, text: &str, space: bool) -> Syllable {
    Syllable { start_time: start, end_time: end, text: text.to_string(), ends_with_space: Some(space) }
}

fn empty_meta() -> TTMLMetadata {
    TTMLMetadata { title: None, artist: None, album: None, platform_ids: None }
}

fn line(start: u32, end: u32, text: &str, words: Option<Vec<Syllable>>) -> LyricLine {
    LyricLine {
        start_time: start,
        end_time: end,
        text: text.to_string(),
        words,
        translations: None,
        romanizations: None,
        background_vocal: None,
        agent_id: None,
    }
}

fn sample() -> TTMLResult {
    let mut l1 = line(1000, 3000, "Hello world", Some(vec![syl(1000, 1500, "Hello", true), syl(1500, 3000, "world", false)]));
    l1.background_vocal = Some(BackgroundLine {
        start_time: 2000,
        end_time: 2500,
        text: "ah".to_string(),
        words: Some(vec![syl(2000, 2500, "ah", false)]),
        translations: None,
        romanizations: None,
    });
    l1.translations = Some(vec![AuxText { text: "你好世界".to_string() }]);
    let mut l2 = line(4000, 6000, "(x) y", None);
    l2.agent_id = Some("v2".to_string());
    TTMLResult { lines: vec![l1, l2], metadata: empty_meta() }
}

#[test]
fn lys_lines_with_properties_and_background() {
    let out = LysGenerator::new().generate(&sample());
    assert_eq!(out, "[0]Hello (1000,500)world(1500,1500)\n[6](ah)(2000,500)\n[2](x) y(4000,2000)");
}

#[test]
fn yrc_replaces_parentheses_and_times_lines() {
    let out = YrcGenerator::new().generate(&sample());
    assert_eq!(
        out,
        "[1000,2000](1000,500,0)Hello (1500,1500,0)world\n[2000,500](2000,500,0)（ah）\n[4000,2000](4000,2000,0)（x） y"
    );
}

#[test]
fn lrc_plain_default_with_background_line() {
    let gen = LrcTypeGenerator::new(LrcTypeGeneratorOptions::default());
    let out = gen.generate(&sample());
    assert_eq!(out, "[00:01.000]Hello world\n[00:02.000](ah)\n[00:04.000](x) y\n[00:06.000]");
}

#[test]
fn lrc_plain_translation_inline() {
    let mut opts = LrcTypeGeneratorOptions::default();
    opts.auxiliary_lines.translation.enabled = true;
    opts.auxiliary_lines.translation.inline = true;
    opts.auxiliary_lines.background_vocal.enabled = false;
    let gen = LrcTypeGenerator::new(opts);
    let out = gen.generate(&sample());
    assert_eq!(out, "[00:01.000]Hello world (你好世界)\n[00:04.000](x) y\n[00:06.000]");
}

#[test]
fn lrc_enhanced_words_and_end_times() {
    let mut opts = LrcTypeGeneratorOptions::default();
    opts.mode = LrcMode::Enhanced;
    opts.inline_bracket = InlineBracket::Angle;
    opts.auxiliary_lines.background_vocal.enabled = false;
    let gen = LrcTypeGenerator::new(opts);
    let out = gen.generate(&sample());
    assert_eq!(
        out,
        "<00:01.000>Hello <00:01.500>world<00:03.000>\n[00:04.000](x) y[00:06.000]"
    );
    let mut opts = LrcTypeGeneratorOptions::default();
    opts.mode = LrcMode::Spl;
    opts.skip_line_timestamp = false;
    opts.auxiliary_lines.background_vocal.enabled = false;
    let out = LrcTypeGenerator::new(opts).generate(&sample());
    assert_eq!(
        out,
        "[00:01.000][00:01.000]Hello [00:01.500]world[00:03.000]\n[00:04.000](x) y[00:06.000]"
    );
}

#[test]
fn lrc_plain_end_timestamp_always_and_interval() {
    let mut opts = LrcTypeGeneratorOptions::default();
    opts.auxiliary_lines.background_vocal.enabled = false;
    opts.end_timestamp.mode = EndTimestampMode::Always;
    let out = LrcTypeGenerator::new(opts).generate(&sample());
    assert_eq!(out, "[00:01.000]Hello world\n[00:03.000]\n[00:04.000](x) y\n[00:06.000]");

    let mut opts = LrcTypeGeneratorOptions::default();
    opts.auxiliary_lines.background_vocal.enabled = false;
    opts.end_timestamp.mode = EndTimestampMode::Interval;
    opts.end_timestamp.interval_gap = 1500;
    let out = LrcTypeGenerator::new(opts).generate(&sample());
    // the gap after the first line is 1000 ms; the last line has no next line
    assert_eq!(out, "[00:01.000]Hello world\n[00:04.000](x) y\n[00:06.000]");

    // a gap equal to the configured one writes no end stamp; a larger one does
    let mut opts = LrcTypeGeneratorOptions::default();
    opts.auxiliary_lines.background_vocal.enabled = false;
    opts.end_timestamp.interval_gap = 1000;
    let out = LrcTypeGenerator::new(opts).generate(&sample());
    assert_eq!(out, "[00:01.000]Hello world\n[00:04.000](x) y\n[00:06.000]");
    let mut opts = LrcTypeGeneratorOptions::default();
    opts.auxiliary_lines.background_vocal.enabled = false;
    opts.end_timestamp.interval_gap = 999;
    let out = LrcTypeGenerator::new(opts).generate(&sample());
    assert_eq!(out, "[00:01.000]Hello world\n[00:03.000]\n[00:04.000](x) y\n[00:06.000]");
}

#[test]
fn lrc_end_timestamp_default_is_interval_of_five_seconds() {
    let opts = LrcTypeGeneratorOptions::default();
    assert_eq!(opts.end_timestamp.mode, EndTimestampMode::Interval);
    assert_eq!(opts.end_timestamp.interval_gap, 5000);
}

#[test]
fn lrc_format_time_brackets() {
    let gen = LrcTypeGenerator::new(LrcTypeGeneratorOptions::default());
    assert_eq!(gen.format_time(3723456, InlineBracket::Square), "[62:03.456]");
    assert_eq!(gen.format_time(5, InlineBracket::Angle), "<00:00.005>");
}
