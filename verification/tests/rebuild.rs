use ttml_processor::parser::parse_ttml;
use ttml_processor::rebuild::{
    amll_lines_of, collect_contributors, contributors_markdown, credits_fit, durations_valid, lyric_file_id,
    order_raw_lyrics, platform_tasks, process_lyric_content, sort_contributors, sort_metadata, stringify_all,
    AmllLine, AmllWord, Contributor, Platform,
};
use ttml_processor::types::TtmlParsingOptions;

const DUET: &str = r#"<tt xmlns="http://www.w3.org/ns/ttml" xmlns:ttm="http://www.w3.org/ns/ttml#metadata" xmlns:amll="http://www.example.com/ns/amll" xmlns:itunes="http://music.apple.com/lyric-ttml-internal"><head><metadata><amll:meta key="musicName" value="Song"/><amll:meta key="artists" value="Artist"/></metadata></head><body><div><p begin="1.000" end="3.000" ttm:agent="v1"><span begin="1.000" end="1.500">Hello</span> <span begin="1.500" end="3.000">world</span></p><p begin="4.000" end="5.000" ttm:agent="v2"><span begin="4.000" end="5.000">two</span><span ttm:role="x-bg"><span begin="4.500" end="5.000">(bg)</span></span></p></div></body></tt>"#;

fn word(start: u64, end: u64, w: &str) -> AmllWord {
    AmllWord { start_time: start, end_time: end, word: w.to_string() }
}

fn simple_line() -> AmllLine {
    AmllLine {
        words: vec![word(1000, 1500, "Hello"), word(0, 0, " "), word(1500, 3000, "world")],
        translated_lyric: String::new(),
        roman_lyric: String::new(),
        is_bg: false,
        is_duet: false,
        start_time: 1000,
        end_time: 3000,
    }
}

#[test]
fn amll_lines_of_parsed_lyrics() {
    let parsed = parse_ttml(DUET, &TtmlParsingOptions::default()).unwrap();
    let lines = amll_lines_of(&parsed.lines);
    assert_eq!(lines.len(), 3);
    let words: Vec<&str> = lines[0].words.iter().map(|w| w.word.as_str()).collect();
    assert_eq!(words, vec!["Hello", " ", "world"]);
    assert_eq!((lines[0].words[1].start_time, lines[0].words[1].end_time), (0, 0));
    assert!(!lines[0].is_duet && !lines[0].is_bg);
    assert!(lines[1].is_duet && !lines[1].is_bg);
    assert!(lines[2].is_duet && lines[2].is_bg);
    assert_eq!(lines[2].words[0].word, "bg");
    assert_eq!((lines[1].start_time, lines[1].end_time), (lines[2].start_time, lines[2].end_time));
    assert!(lines[0].translated_lyric.is_empty() && lines[0].roman_lyric.is_empty());
}

#[test]
fn lines_written_in_every_format() {
    let lines = vec![simple_line()];
    assert!(durations_valid(&lines));
    let files = stringify_all(&lines);
    assert_eq!(files.lrc, "[00:01.000]Hello world\n");
    assert_eq!(files.yrc, "[1000,2000](1000,500,0)Hello(0,0,0) (1500,1500,0)world\n");
    assert_eq!(files.lys, "[0]Hello(1000,500) (0,0)world(1500,1500)\n");
    assert_eq!(files.qrc, "[1000,2000]Hello(1000,500) (0,0)world(1500,1500)\n");
    assert_eq!(files.eslrc, "[00:01.000]Hello[00:01.500] [00:00.000]world[00:03.000]\n");
}

#[test]
fn reversed_word_times_cannot_be_written() {
    let mut line = simple_line();
    line.words[0] = word(1500, 1000, "Hello");
    assert!(!durations_valid(&vec![line]));
    let mut huge = simple_line();
    huge.words = vec![word(0, u64::MAX, "a"), word(0, 1, "b")];
    assert!(!durations_valid(&vec![huge]));
}

#[test]
fn stored_files_are_read_in_order_of_number() {
    assert_eq!(lyric_file_id("123-456-ab.ttml"), Some(123));
    assert_eq!(lyric_file_id("77.ttml"), None);
    assert_eq!(lyric_file_id("88"), Some(88));
    assert_eq!(lyric_file_id(""), None);
    let names: Vec<String> =
        ["20-a.ttml", "x.ttml", "3-b.ttml", "20-c.ttml", "+5"].iter().map(|s| s.to_string()).collect();
    assert_eq!(order_raw_lyrics(&names), vec![2, 4, 0, 3]);
}

#[test]
fn metadata_sorted_by_key() {
    let md = vec![
        ("b".to_string(), vec!["1".to_string()]),
        ("a".to_string(), vec!["2".to_string()]),
        ("B".to_string(), vec![]),
    ];
    let keys: Vec<String> = sort_metadata(md).into_iter().map(|e| e.0).collect();
    assert_eq!(keys, vec!["B", "a", "b"]);
    let parsed = process_lyric_content(DUET).unwrap();
    let keys: Vec<&str> = parsed.metadata.iter().map(|e| e.0.as_str()).collect();
    let mut sorted = keys.clone();
    sorted.sort();
    assert_eq!(keys, sorted);
    assert_eq!(parsed.lines.len(), 3);
}

fn md(entries: &[(&str, &[&str])]) -> Vec<(String, Vec<String>)> {
    entries.iter().map(|(k, v)| (k.to_string(), v.iter().map(|s| s.to_string()).collect())).collect()
}

#[test]
fn contributors_counted_and_ranked() {
    let files = vec![
        md(&[("ttmlAuthorGithub", &["1", "2"]), ("ttmlAuthorGithubLogin", &["one"])]),
        md(&[("ttmlAuthorGithub", &["2"]), ("ttmlAuthorGithubLogin", &["two"])]),
        md(&[("musicName", &["x"]), ("ttmlAuthorGithub", &["3"])]),
    ];
    assert!(credits_fit(&files));
    let cs = collect_contributors(&files);
    let seen: Vec<(&str, Option<&str>, usize)> =
        cs.iter().map(|c| (c.github_id.as_str(), c.github_login.as_deref(), c.count)).collect();
    assert_eq!(seen, vec![("1", Some("one"), 1), ("2", Some("two"), 2), ("3", None, 1)]);
    let ranked = sort_contributors(cs);
    let ids: Vec<&str> = ranked.iter().map(|c| c.github_id.as_str()).collect();
    assert_eq!(ids, vec!["2", "1", "3"]);
}

#[test]
fn contributors_page() {
    let cs = vec![
        Contributor { github_id: "2".to_string(), github_login: Some("two".to_string()), count: 5 },
        Contributor { github_id: "1".to_string(), github_login: None, count: 3 },
        Contributor { github_id: "7".to_string(), github_login: None, count: 1 },
        Contributor { github_id: "8".to_string(), github_login: None, count: 1 },
    ];
    let page = contributors_markdown(&cs, "2024-01-02 03:04");
    assert!(page.starts_with("<!--\n  此文件由机器人自动生成。"));
    assert!(page.contains("> \n> 最后更新于 2024-01-02 03:04 (UTC+8)\n\n"));
    assert!(page.contains("| 排名 | 贡献者 | 贡献次数 |\n| :---: | :--- | :---: |\n| 🥇 | "));
    assert!(page.contains(r#"<img src="https://avatars.githubusercontent.com/u/2?v=4" width="20" height="20" style="vertical-align:sub; margin-right:5px" />[two](https://github.com/two) | 5 |"#));
    assert!(page.contains("| 🥈 | "));
    assert!(page.contains("`#1` | 3 |\n"));
    assert!(page.contains("| 🥉 | "));
    assert!(page.ends_with("`#8` | 1 |\n"));
    assert!(page.contains("\n| 4 | "));
}

#[test]
fn platform_folder_tasks_take_the_last_file() {
    let files = vec![
        md(&[("ncmMusicId", &["a", "b"]), ("musicName", &["x"])]),
        md(&[("ncmMusicId", &["b"]), ("spotifyId", &["s"]), ("qqMusicId", &[]), ("appleMusicId", &["m"])]),
    ];
    let tasks = platform_tasks(&files, true);
    let seen: Vec<(Platform, &str, usize)> = tasks.iter().map(|t| (t.platform, t.id.as_str(), t.entry)).collect();
    assert_eq!(
        seen,
        vec![(Platform::Ncm, "a", 0), (Platform::Ncm, "b", 1), (Platform::Spotify, "s", 1), (Platform::Am, "m", 1)]
    );
    assert!(platform_tasks(&files, false).is_empty());
}
