use cognitive_writer::learn::{
    check_learn_prompt, fallback_text, jina_reader_url, reader_step, strip_html_tags,
    style_file_path, validate_style_name, ReaderOutcome, ReaderStep,
};

// ── strip_html_tags ─────────────────────────────────────────

#[test]
fn test_strip_html_simple_tag() {
    assert_eq!(strip_html_tags("<p>text</p>"), "text");
}

#[test]
fn test_strip_html_nested_tags() {
    assert_eq!(strip_html_tags("<div><p>text</p></div>"), "text");
}

#[test]
fn test_strip_html_plain_text_unchanged() {
    assert_eq!(strip_html_tags("plain text here"), "plain text here");
}

#[test]
fn test_strip_html_removes_tag_with_attributes() {
    assert_eq!(strip_html_tags("<a href=\"url\">link</a>"), "link");
}

#[test]
fn test_strip_html_compresses_consecutive_blank_lines() {
    let input = "line1\n\n\nline2";
    let result = strip_html_tags(input);
    // 三个空行被压缩，不应存在三连 \n
    assert!(!result.contains("\n\n\n"), "blank lines should be compressed");
}

#[test]
fn test_strip_html_mixed_content() {
    let input = "<h1>Title</h1>\n<p>Paragraph with <b>bold</b> text.</p>";
    let result = strip_html_tags(input);
    assert!(result.contains("Title"));
    assert!(result.contains("bold"));
    assert!(result.contains("text"));
    assert!(!result.contains('<'));
    assert!(!result.contains('>'));
}

#[test]
fn test_strip_html_empty_input() {
    let result = strip_html_tags("");
    assert_eq!(result, "");
}

#[test]
fn strip_html_exact_output() {
    assert_eq!(
        strip_html_tags("<h1>T</h1>\n\n\n\n<p>a</p>\r\n  \n\nb  "),
        "T\n\na\n  \nb"
    );
}

#[test]
fn jina_url_prefixes_reader() {
    assert_eq!(
        jina_reader_url("https://example.com/a"),
        "https://r.jina.ai/https://example.com/a"
    );
}

#[test]
fn style_names_are_checked() {
    assert_eq!(validate_style_name("   "), Err("名称不能为空".to_string()));
    assert_eq!(validate_style_name("a/b"), Err("名称不能包含路径分隔符".to_string()));
    assert_eq!(validate_style_name("a\\b"), Err("名称不能包含路径分隔符".to_string()));
    assert_eq!(validate_style_name(" 轻辩 "), Ok(()));
    assert_eq!(style_file_path(" 轻辩 "), "styles/轻辩.md");
}

#[test]
fn blank_learn_prompt_is_refused() {
    assert_eq!(
        check_learn_prompt(" \n ".to_string()),
        Err("逆向风格提取提示词 `prompts/learn_style.md` 为空".to_string())
    );
    assert_eq!(check_learn_prompt("提示".to_string()), Ok("提示".to_string()));
}

#[test]
fn reader_outcomes() {
    match reader_step(ReaderOutcome::Answered("正文".to_string())) {
        ReaderStep::Text(t) => assert_eq!(t, "正文"),
        _ => panic!("expected text"),
    }
    match reader_step(ReaderOutcome::Answered("  \n".to_string())) {
        ReaderStep::Failed(m) => assert_eq!(m, "Jina Reader 返回空内容"),
        _ => panic!("expected failure"),
    }
    assert!(matches!(reader_step(ReaderOutcome::Unavailable), ReaderStep::Fallback));
}

#[test]
fn fallback_text_refuses_empty_pages() {
    assert_eq!(fallback_text("<p></p>"), Err("提取的正文内容为空".to_string()));
    assert_eq!(fallback_text("<p>hi</p>"), Ok("hi".to_string()));
}
