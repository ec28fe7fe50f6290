use cognitive_writer::error::invalid_state_text;
use cognitive_writer::markdown::wrap_wechat_html;
use cognitive_writer::console::{
    classify_line, config_from_env, parse_command, state_prompt, state_report,
    unknown_command_message, Command, Line,
};
use cognitive_writer::error::AppError;
use cognitive_writer::intent::{Intent, SessionState};
use cognitive_writer::markdown::{extract_title, html_document, md_to_wechat_html, sep};
use cognitive_writer::session::{check_refine_file, intent_debug_text, Action, Session};

// ── md_to_wechat_html ──────────────────────────────────────────

#[test]
fn test_md_to_wechat_html_basic() {
    let result = md_to_wechat_html("**hello** world");
    assert!(result.contains("<section"));
    assert!(result.contains("<strong>hello</strong>"));
    assert!(result.contains("world"));
}

#[test]
fn test_md_to_wechat_html_strips_hr() {
    let result = md_to_wechat_html("---\ncontent");
    assert!(!result.contains("<hr"));
    assert!(result.contains("content"));
}

#[test]
fn test_md_to_wechat_html_empty() {
    let result = md_to_wechat_html("");
    assert!(result.contains("<section"));
}

#[test]
fn md_to_wechat_html_exact() {
    assert_eq!(
        md_to_wechat_html("a\n\n***\n\n~~b~~"),
        "<section style=\"font-size:15px;line-height:2;color:#333;\"><p>a</p>\n\n<p><del>b</del></p>\n</section>"
    );
    assert_eq!(
        html_document("<p>x</p>"),
        "<!DOCTYPE html>\n<html>\n<head><meta charset=\"utf-8\"></head>\n<body>\n<p>x</p>\n</body>\n</html>"
    );
}

// ── extract_title ──────────────────────────────────────────────

#[test]
fn test_extract_title_h1() {
    assert_eq!(extract_title("# 我的文章标题"), "我的文章标题");
}

#[test]
fn test_extract_title_h2() {
    assert_eq!(extract_title("## 二级标题\n内容"), "二级标题");
}

#[test]
fn test_extract_title_with_whitespace() {
    assert_eq!(extract_title("   #   标题前后空白   "), "标题前后空白");
}

#[test]
fn test_extract_title_no_heading() {
    assert_eq!(extract_title("正文内容没有标题"), "Untitled");
}

#[test]
fn test_extract_title_empty() {
    assert_eq!(extract_title(""), "Untitled");
}

#[test]
fn test_extract_title_skips_empty_lines() {
    assert_eq!(extract_title("\n\n# 跳过空行"), "跳过空行");
}

#[test]
fn separator_is_sixty_rules() {
    assert_eq!(sep(), "─".repeat(60));
}

// ── configuration ──────────────────────────────────────────────

#[test]
fn test_repl_new_requires_api_key() {
    let result = config_from_env(None, None, None, None);
    assert!(result.is_err());
    if let Err(e) = result {
        let msg = e.message();
        assert!(msg.contains("API_KEY") || msg.contains("未设置"));
    }
}

#[test]
fn test_repl_new_uses_defaults() {
    let config = config_from_env(Some("test-key".to_string()), None, None, None).unwrap();
    assert_eq!(config.api_key, "test-key");
    assert_eq!(config.base_url, "https://api.openai.com/v1");
    assert_eq!(config.model, "gpt-4o");
    assert!(config.website_path.is_empty());
    let session = Session::new();
    assert!(matches!(session.current_state(), SessionState::Idle));
}

// ── session ────────────────────────────────────────────────────

fn some(s: &str) -> Option<String> {
    Some(s.to_string())
}

#[test]
fn test_reset_state_clears_all() {
    let mut repl = Session::new();
    repl.state = SessionState::WaitingForPublish;
    repl.current_topic = some("test");
    repl.current_outline = some("outline");
    repl.current_fulltext = some("fulltext");
    repl.current_style_name = some("style");
    repl.current_style_content = some("content");
    repl.current_slug = some("slug");

    repl.reset_state();

    assert!(matches!(repl.state, SessionState::Idle));
    assert!(repl.current_topic.is_none());
    assert!(repl.current_outline.is_none());
    assert!(repl.current_fulltext.is_none());
    assert!(repl.current_style_name.is_none());
    assert!(repl.current_style_content.is_none());
    assert!(repl.current_slug.is_none());
}

#[test]
fn test_handle_command_help() {
    let c = parse_command("/help");
    assert!(matches!(c, Command::Help));
    assert!(!c.exits());
}

#[test]
fn test_handle_command_quit() {
    let c = parse_command("/quit");
    assert!(c.exits());
}

#[test]
fn test_handle_command_unknown() {
    let c = parse_command("/unknown");
    assert!(!c.exits());
    match c {
        Command::Unknown(name) => {
            assert_eq!(name, "/unknown");
            assert_eq!(
                unknown_command_message(&name),
                "未知命令: /unknown. 输入 /help 查看帮助。"
            );
        }
        _ => panic!("expected an unknown command"),
    }
}

#[test]
fn lines_are_classified() {
    assert!(matches!(classify_line(""), Line::Skip));
    assert!(matches!(classify_line("  /styles "), Line::Text));
    assert!(matches!(classify_line("/styles "), Line::Command(Command::Styles)));
    assert!(matches!(classify_line("/state"), Line::Command(Command::State)));
    assert!(matches!(classify_line("写一篇"), Line::Text));
}

#[test]
fn prompts_follow_the_state() {
    assert_eq!(state_prompt(SessionState::Idle), "> ");
    assert_eq!(state_prompt(SessionState::WaitingForOutline), "[大纲确认] > ");
    assert_eq!(state_prompt(SessionState::WaitingForFulltext), "[全文确认] > ");
    assert_eq!(state_prompt(SessionState::WaitingForPublish), "[发布确认] > ");
}

#[test]
fn whole_workflow() {
    let mut s = Session::new();
    let a = s.dispatch(Intent::Generate {
        topic: "关于AI的文章".to_string(),
        style_name: "鲁迅".to_string(),
    });
    assert!(matches!(a, Action::Generate { .. }));
    assert_eq!(s.state, SessionState::Idle);
    s.style_matched("luxun".to_string(), "冷峻".to_string(), "关于AI的文章".to_string());
    s.outline_ready("- 一\n- 二".to_string());
    assert_eq!(s.state, SessionState::WaitingForOutline);
    match s.dispatch(Intent::Confirm) {
        Action::RenderFulltext { style, outline, topic } => {
            assert_eq!(style, "冷峻");
            assert_eq!(outline, "- 一\n- 二");
            assert_eq!(topic, "关于AI的文章");
        }
        _ => panic!("expected rendering"),
    }
    s.fulltext_ready("# 机器 时代\n正文".to_string());
    assert_eq!(s.state, SessionState::WaitingForFulltext);
    assert_eq!(s.current_slug, some("机器时代"));
    match s.dispatch(Intent::Confirm) {
        Action::DraftPublish { fulltext, slug } => {
            assert_eq!(fulltext, "# 机器 时代\n正文");
            assert_eq!(slug, "机器时代");
        }
        _ => panic!("expected drafts"),
    }
    assert_eq!(s.state, SessionState::WaitingForPublish);
    match s.dispatch(Intent::Publish) {
        Action::Publish { slug } => assert_eq!(slug, "机器时代"),
        _ => panic!("expected publishing"),
    }
    assert_eq!(s.state, SessionState::Idle);
    assert!(s.current_fulltext.is_none());
}

#[test]
fn cancel_resets_from_any_state() {
    let mut s = Session::new();
    s.state = SessionState::WaitingForFulltext;
    s.current_fulltext = some("x");
    assert!(matches!(s.dispatch(Intent::Cancel), Action::Cancelled));
    assert_eq!(s.state, SessionState::Idle);
    assert!(s.current_fulltext.is_none());
}

#[test]
fn mismatched_intent_is_refused_and_keeps_the_session() {
    let mut s = Session::new();
    s.state = SessionState::WaitingForOutline;
    s.current_outline = some("o");
    match s.dispatch(Intent::Publish) {
        Action::Fail(AppError::InvalidState { state, intent }) => {
            assert_eq!(state, "WaitingForOutline");
            assert_eq!(intent, "Publish");
        }
        _ => panic!("expected a refusal"),
    }
    assert_eq!(s.state, SessionState::WaitingForOutline);
    assert_eq!(s.current_outline, some("o"));
    let mut idle = Session::new();
    let refused = Intent::ModifyOutline { instruction: "短\"点".to_string() };
    let expected = format!("当前状态下不支持此操作: {:?} ← {:?}", "Idle", format!("{:?}", refused));
    match idle.dispatch(refused) {
        Action::Fail(e) => assert_eq!(e.message(), expected),
        _ => panic!("expected a refusal"),
    }
}

#[test]
fn missing_context_is_reported() {
    let mut s = Session::new();
    s.state = SessionState::WaitingForOutline;
    match s.dispatch(Intent::Confirm) {
        Action::Fail(AppError::Intent(m)) => assert_eq!(m, "风格内容丢失"),
        _ => panic!("expected a failure"),
    }
    s.state = SessionState::WaitingForPublish;
    match s.dispatch(Intent::PublishWebsiteOnly) {
        Action::Fail(AppError::Intent(m)) => assert_eq!(m, "slug 丢失，无法发布"),
        _ => panic!("expected a failure"),
    }
    assert_eq!(s.state, SessionState::WaitingForPublish);
    s.current_slug = some("a");
    assert!(matches!(s.dispatch(Intent::Hold), Action::Hold));
    assert_eq!(s.state, SessionState::Idle);
}

#[test]
fn intent_debug_matches_derived_debug() {
    let i = Intent::Generate { topic: "t\"1".to_string(), style_name: "s".to_string() };
    assert_eq!(intent_debug_text(&i), format!("{:?}", i));
    let i = Intent::UpdateFile { path: "a.md".to_string(), instruction: "x\ny".to_string() };
    assert_eq!(intent_debug_text(&i), format!("{:?}", i));
    assert_eq!(intent_debug_text(&Intent::PublishWebsiteOnly), "PublishWebsiteOnly");
}

#[test]
fn state_report_lines() {
    let mut s = Session::new();
    s.current_topic = some("话题");
    s.current_outline = some("大纲ab");
    let config = config_from_env(Some("k".to_string()), None, None, None).unwrap();
    let lines = state_report(&s, &config);
    assert_eq!(
        lines,
        vec![
            "状态: Idle",
            "话题: 话题",
            "大纲: 8 字符",
            "全文: (无)",
            "风格: (无)",
            "slug: (无)",
            "配置: model=gpt-4o base_url=https://api.openai.com/v1",
            "网站路径: (未配置)",
        ]
    );
}

#[test]
fn blank_file_cannot_be_refined() {
    match check_refine_file("a.md", "  \n") {
        Err(AppError::Intent(m)) => assert_eq!(m, "文件内容为空: a.md"),
        _ => panic!("expected a refusal"),
    }
    assert!(check_refine_file("a.md", "x").is_ok());
}

#[test]
fn wechat_wrapping_removes_rules() {
    assert_eq!(
        wrap_wechat_html("<p>a</p>\n<hr />\n<hr><p>b</p>"),
        "<section style=\"font-size:15px;line-height:2;color:#333;\"><p>a</p>\n\n<p>b</p></section>"
    );
}

#[test]
fn invalid_state_message_layout() {
    assert_eq!(
        invalid_state_text("\"Idle\"", "\"Confirm\""),
        "当前状态下不支持此操作: \"Idle\" ← \"Confirm\""
    );
}

#[test]
fn io_errors_show_their_text() {
    let e = AppError::Io(std::io::Error::new(std::io::ErrorKind::Other, "boom"));
    assert_eq!(e.message(), "IO 错误: boom");
    assert_eq!(AppError::EnvVar("API_KEY 未设置".to_string()).message(), "环境变量 `API_KEY 未设置` 未设置");
}
