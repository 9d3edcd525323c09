use ttml_processor::bot::{
    is_bot_check_comment,
    is_contributor, lyric_file_index, open_pr_query, parse_command, permission_first_step, permission_with_author,
    error_debug_text, process_parsed, process_ttml_string, sort_lines_by_start, split_labels, submission_branch_name, submission_commit_message,
    submission_file_name, submission_request, validation_failure_message, BotCommand, PermissionStep,
};
use ttml_processor::issue_text::{
    build_body, build_close_comment, build_decline_comment, build_issue_success_comment, build_pr_body,
    build_pr_update_comment, generate_pr_title, issue_param, lines_of, parse_issue_body,
    parse_issue_number_from_pr_body, quote_warnings, PrContext,
};
use ttml_processor::metadata::MetadataStore;
use ttml_processor::types::LyricLine;

const FORM: &str = "### TTML 歌词文件下载直链\r\n\r\nhttps://example.com/a.ttml\r\n\r\n### 备注\n\n_No response_\n\n### 选项\n\n- [x] 同意协议 \n- [ ] 不同意\n";

#[test]
fn lines_follow_str_lines() {
    assert_eq!(lines_of("a\r\nb\n\nc"), vec!["a", "b", "", "c"]);
    assert_eq!(lines_of("x\n"), vec!["x"]);
    assert!(lines_of("").is_empty());
}

#[test]
fn issue_form_fields_are_read() {
    let params = parse_issue_body(FORM);
    assert_eq!(
        params,
        vec![
            ("TTML 歌词文件下载直链".to_string(), "https://example.com/a.ttml".to_string()),
            ("备注".to_string(), "_No response_".to_string()),
            ("选项".to_string(), "同意协议".to_string()),
        ]
    );
    assert_eq!(issue_param(&params, "备注").map(|s| s.as_str()), Some("_No response_"));
    assert_eq!(issue_param(&params, "missing"), None);
}

#[test]
fn later_form_field_wins() {
    let params = parse_issue_body("### A\none\n### A\ntwo\n");
    assert_eq!(issue_param(&params, "A").map(|s| s.as_str()), Some("two"));
}

#[test]
fn submission_request_needs_a_link() {
    let params = parse_issue_body(FORM);
    let (url, remarks) = submission_request(&params).unwrap();
    assert_eq!(url, "https://example.com/a.ttml");
    assert_eq!(remarks, "_No response_");
    let empty = parse_issue_body("### TTML 歌词文件下载直链\n\n");
    assert_eq!(
        submission_request(&empty).unwrap_err(),
        "无法在 Issue 中找到有效的“TTML 歌词文件下载直链”。"
    );
    let none = parse_issue_body("### 备注\nhi\n");
    assert!(submission_request(&none).is_err());
}

#[test]
fn issue_number_of_pr_body() {
    assert_eq!(parse_issue_number_from_pr_body(Some("### 歌词议题\n#42\n### 歌词作者\n@x")), Some(42));
    assert_eq!(parse_issue_number_from_pr_body(Some("  #7  ")), Some(7));
    assert_eq!(parse_issue_number_from_pr_body(Some("#abc\n#")), None);
    assert_eq!(parse_issue_number_from_pr_body(None), None);
}

#[test]
fn comment_body_quotes_the_lyric_when_it_fits() {
    let full = build_body("base", Some("<tt/>"), 65535);
    assert_eq!(full, "base\n\n**原始歌词数据:**\n\n\n```xml\n<tt/>\n```");
    assert_eq!(build_body("base", Some("<tt/>"), 10), "base");
    assert_eq!(build_body("base", None, 1), "base");
    // the limit counts bytes: the section title alone is 24 bytes of UTF-8
    let exact = full.len();
    assert_eq!(build_body("base", Some("<tt/>"), exact), full);
    assert_eq!(build_body("base", Some("<tt/>"), exact - 1), "base");
}

#[test]
fn warnings_are_quoted() {
    assert_eq!(quote_warnings(&["a".to_string(), "b".to_string()]), "> - a\n> - b");
    assert_eq!(quote_warnings(&[]), "");
}

#[test]
fn success_and_decline_comments() {
    let c = build_issue_success_comment("<tt/>", &["w1".to_string()]);
    assert!(c.starts_with("<!-- AMLL-DB-BOT-CHECKED -->\n\n歌词提交议题检查完毕！"));
    assert!(c.contains("\n\n> [!WARNING]\n> 解析歌词文件时发现以下问题:\n> - w1"));
    assert!(c.ends_with("```xml\n<tt/>\n```"));
    let d = build_decline_comment("bad", "");
    assert_eq!(
        d,
        "<!-- AMLL-DB-BOT-CHECKED -->\n\n**歌词提交议题检查失败**\n\n原因: bad\n\n**原始歌词数据:**\n\n\n```xml\n\n```"
    );
    assert_eq!(build_pr_update_comment("u", &[]), "@u，歌词文件已根据你的请求更新！");
    assert_eq!(build_close_comment("u", None), "应用户 @u 的请求，此 PR 已关闭。\n\n**原因**: 无");
    assert_eq!(build_close_comment("u", Some("dup")), "应用户 @u 的请求，此 PR 已关闭。\n\n**原因**: dup");
}

fn store_with(entries: &[(&str, &str)]) -> MetadataStore {
    let mut s = MetadataStore::new();
    for (k, v) in entries {
        s.add(k, v).unwrap();
    }
    s
}

fn context<'a>(title: &'a str, store: &'a MetadataStore, remarks: &'a str, warnings: &'a [String]) -> PrContext<'a> {
    PrContext {
        issue_number: 12,
        issue_title: title,
        issue_author: "alice",
        issue_author_id: 99,
        original_ttml: "",
        compact_ttml: "",
        metadata_store: store,
        remarks,
        warnings,
        root_path: "/repo",
        is_first_time: false,
    }
}

#[test]
fn pr_title_from_metadata_when_issue_title_is_only_the_label() {
    let store = store_with(&[("artists", "A"), ("artists", "B"), ("musicName", "Song")]);
    let w: Vec<String> = Vec::new();
    assert_eq!(generate_pr_title(&context(" [歌词提交/补正] ", &store, "", &w)), "[歌词提交/补正] A, B - Song");
    assert_eq!(generate_pr_title(&context("", &store, "", &w)), "[歌词提交/补正] A, B - Song");
    assert_eq!(generate_pr_title(&context("My title", &store, "", &w)), "My title");
    let no_title = store_with(&[("artists", "A")]);
    assert_eq!(generate_pr_title(&context("", &no_title, "", &w)), "");
}

#[test]
fn pr_body_sections() {
    let store = store_with(&[("musicName", "Song"), ("ncmMusicId", "123"), ("ncmMusicId", "456")]);
    let w = vec!["late".to_string()];
    let body = build_pr_body(&context("t", &store, "thanks", &w));
    assert_eq!(
        body,
        "### 歌词议题\n#12\n\n### 歌词作者\n@alice\n\n### 音乐名称\n\n- `Song`\n\n### 歌曲关联网易云音乐 ID\n\n- `123`\n- `456`\n\n### 备注\n\nthanks\n\n> [!WARNING]\n > 解析歌词文件时发现问题，详情如下:\n> - late"
    );
    let none: Vec<String> = Vec::new();
    let plain = build_pr_body(&context("t", &store_with(&[]), "_No response_", &none));
    assert_eq!(plain, "### 歌词议题\n#12\n\n### 歌词作者\n@alice");
}

#[test]
fn commands_in_comments() {
    match parse_command("  /close dup  ") {
        BotCommand::Close { reason } => assert_eq!(reason.as_deref(), Some("dup")),
        _ => panic!("expected close"),
    }
    match parse_command("/close") {
        BotCommand::Close { reason } => assert_eq!(reason, None),
        _ => panic!("expected close"),
    }
    match parse_command("/label  a b ") {
        BotCommand::Label { labels } => assert_eq!(labels, "a b"),
        _ => panic!("expected label"),
    }
    match parse_command("/update https://x/y.ttml  new remarks ") {
        BotCommand::Update { url, remarks } => {
            assert_eq!(url, "https://x/y.ttml");
            assert_eq!(remarks.as_deref(), Some("new remarks"));
        },
        _ => panic!("expected update"),
    }
    match parse_command("/update https://x/y.ttml") {
        BotCommand::Update { url, remarks } => {
            assert_eq!(url, "https://x/y.ttml");
            assert_eq!(remarks, None);
        },
        _ => panic!("expected update"),
    }
    assert!(matches!(parse_command("/update   "), BotCommand::Ignore));
    assert!(matches!(parse_command("hello"), BotCommand::Ignore));
}

#[test]
fn labels_split_on_whitespace() {
    assert_eq!(split_labels("  a\tb  c "), vec!["a", "b", "c"]);
    assert!(split_labels("   ").is_empty());
}

#[test]
fn names_and_messages() {
    assert_eq!(submission_branch_name(5), "auto-submit-issue-5");
    assert_eq!(open_pr_query("o", "r", 5), "repo:o/r is:pr is:open head:auto-submit-issue-5");
    assert_eq!(submission_file_name(1700000000000, 42, "AbCd1234"), "1700000000000-42-AbCd1234.ttml");
    assert_eq!(submission_file_name(-5, 1, "x"), "-5-1-x.ttml");
    assert_eq!(submission_commit_message("f.ttml", 9), "提交歌曲歌词 f.ttml #9");
    assert_eq!(
        validation_failure_message(&vec!["a".to_string(), "b".to_string()]),
        "文件验证失败:\n- a\n- b"
    );
}

#[test]
fn contributors_and_missing_list() {
    let ids = vec!["1001".to_string(), "1002".to_string()];
    assert!(is_contributor(Some(&ids), 1001));
    assert!(!is_contributor(Some(&ids), 9999));
    assert!(is_contributor(None, 12345));
}

#[test]
fn permission_steps() {
    assert!(matches!(permission_first_step(true, None, "u"), PermissionStep::Granted));
    assert!(matches!(permission_first_step(false, Some("#3"), "u"), PermissionStep::CheckAuthor(3)));
    match permission_first_step(false, Some("nothing"), "u") {
        PermissionStep::Denied(c) => {
            assert_eq!(c, "@u，操作失败。\n无法从此 PR 追溯到原始的歌词提交议题，因此无法验证你的权限。")
        },
        _ => panic!("expected denial"),
    }
    assert_eq!(permission_with_author("a", "a"), None);
    assert_eq!(
        permission_with_author("b", "a").unwrap(),
        "@b，你没有权限执行此操作。\n只有这个歌词提交的原始作者 (@a) 或仓库协作者才能操作此 PR。"
    );
}

#[test]
fn lyric_file_of_pull_request() {
    let names = vec!["README.md".to_string(), "raw-lyrics/1-2-x.TTML".to_string(), "raw-lyrics/3.ttml".to_string()];
    let exts = vec![Some("md".to_string()), Some("TTML".to_string()), Some("ttml".to_string())];
    assert_eq!(lyric_file_index(&names, &exts), Some(1));
    let other = vec!["lyrics/a.ttml".to_string()];
    assert_eq!(lyric_file_index(&other, &vec![Some("ttml".to_string())]), None);
    assert_eq!(ttml_processor::bot::find_lyric_file(&names), Some(1));
}

#[test]
fn lines_sorted_stably_by_start() {
    let mut lines = Vec::new();
    for (start, key) in [(300u64, "a"), (100, "b"), (300, "c"), (200, "d")] {
        let mut l = LyricLine::new(start, start + 10);
        l.itunes_key = Some(key.to_string());
        lines.push(l);
    }
    let sorted = sort_lines_by_start(lines);
    let keys: Vec<&str> = sorted.iter().map(|l| l.itunes_key.as_deref().unwrap()).collect();
    assert_eq!(keys, vec!["b", "d", "a", "c"]);
}

const GOOD: &str = r#"<tt xmlns="http://www.w3.org/ns/ttml" xmlns:ttm="http://www.w3.org/ns/ttml#metadata" xmlns:amll="http://www.example.com/ns/amll" xmlns:itunes="http://music.apple.com/lyric-ttml-internal"><head><metadata><amll:meta key="musicName" value="Song"/><amll:meta key="artists" value="Artist"/><amll:meta key="album" value="Album"/><amll:meta key="ncmMusicId" value="1"/></metadata></head><body><div><p begin="2.000" end="3.000"><span begin="2.000" end="3.000">second</span></p><p begin="0.500" end="1.000"><span begin="0.500" end="1.000">first</span></p></div></body></tt>"#;

#[test]
fn processing_a_submission() {
    let out = process_ttml_string(GOOD).unwrap();
    let first = out.compact_ttml.find("first").unwrap();
    let second = out.compact_ttml.find("second").unwrap();
    // the lines are written in order of start time
    assert!(first < second);
    assert!(!out.compact_ttml.contains("\n  "));
    let missing = GOOD.replace(r#"<amll:meta key="album" value="Album"/>"#, "");
    let err = process_ttml_string(&missing).unwrap_err();
    assert!(err.starts_with("文件验证失败:\n- "));
    assert!(err.contains("album"));
}

#[test]
fn pr_body_names_its_issue() {
    let store = store_with(&[("musicName", "#99"), ("artists", "#5")]);
    let w = vec!["#7".to_string()];
    let body = build_pr_body(&context("t", &store, "#3", &w));
    assert_eq!(parse_issue_number_from_pr_body(Some(&body)), Some(12));
}

#[test]
fn bot_check_comments_are_recognised() {
    let body = "<!-- AMLL-DB-BOT-CHECKED -->\n\nok";
    assert!(is_bot_check_comment(Some(body), "Bot", 1));
    assert!(is_bot_check_comment(Some(body), "User", 39523898));
    assert!(!is_bot_check_comment(Some(body), "User", 1));
    assert!(!is_bot_check_comment(Some("plain"), "Bot", 1));
    assert!(!is_bot_check_comment(None, "Bot", 1));
}

#[test]
fn test_check_is_contributor_detection() {
    // the ids of a contributors list with two old contributors
    let listed = vec!["1001".to_string(), "1002".to_string()];
    assert!(is_contributor(Some(&listed), 1001), "老贡献者 (1001) 应该被识别出来");
    assert!(!is_contributor(Some(&listed), 9999), "新用户 (9999) 不应该被识别为贡献者");
}

#[test]
fn test_check_is_contributor_missing_file() {
    // no list could be read
    assert!(is_contributor(None, 12345), "文件丢失时，应默认为老贡献者以避免误打标签");
}

#[test]
fn parse_failures_are_reported_with_the_error() {
    let err = ttml_processor::types::ConvertError::Xml("bad \"tag\"".to_string());
    assert_eq!(error_debug_text(&err), "Xml(\"bad \\\"tag\\\"\")");
    let r = process_parsed(Err(ttml_processor::types::ConvertError::Attribute("x".to_string())));
    assert_eq!(r.unwrap_err(), "解析 TTML 文件失败: `Attribute(\"x\")`");
}

