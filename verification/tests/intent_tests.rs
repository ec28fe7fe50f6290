use cognitive_writer::intent::{is_english_cancel, is_english_confirm};
use cognitive_writer::intent::{
    extract_generate, extract_refine, extract_style_name, extract_update, extract_url,
    is_cancel, is_confirm, parse_intent, Intent, SessionState,
};

// ── extract_url ─────────────────────────────────────────────

#[test]
fn test_extract_url_standalone_https() {
    let url = extract_url("https://example.com/article").unwrap();
    assert_eq!(url, "https://example.com/article");
}

#[test]
fn test_extract_url_standalone_http() {
    let url = extract_url("http://example.com").unwrap();
    assert_eq!(url, "http://example.com");
}

#[test]
fn test_extract_url_embedded_no_space() {
    let url = extract_url("学一下https://example.com的风格").unwrap();
    assert_eq!(url, "https://example.com的风格");
}

#[test]
fn test_extract_url_in_middle_of_text() {
    let url = extract_url("看看 https://example.com 这篇文章").unwrap();
    assert_eq!(url, "https://example.com");
}

#[test]
fn test_extract_url_no_url() {
    assert!(extract_url("写一篇文章").is_none());
}

// ── is_confirm ─────────────────────────────────────────────

#[test]
fn test_confirm_chinese() {
    assert!(is_confirm("好"));
    assert!(is_confirm("可以"));
    assert!(is_confirm("没问题"));
}

#[test]
fn test_confirm_english_case_insensitive() {
    assert!(is_confirm("OK"));
    assert!(is_confirm("ok"));
    assert!(is_confirm("Yes"));
    assert!(is_confirm("y"));
}

#[test]
fn test_not_confirm() {
    assert!(!is_confirm("不好"));
    assert!(!is_confirm("maybe"));
    assert!(!is_confirm(""));
}

// ── is_cancel ──────────────────────────────────────────────

#[test]
fn test_cancel_chinese() {
    assert!(is_cancel("算了"));
    assert!(is_cancel("取消"));
    assert!(is_cancel("不写了"));
}

#[test]
fn test_cancel_english() {
    assert!(is_cancel("cancel"));
    assert!(is_cancel("CANCEL"));
    assert!(is_cancel("no"));
}

#[test]
fn test_not_cancel() {
    assert!(!is_cancel("继续"));
    assert!(!is_cancel("yes"));
    assert!(!is_cancel(""));
}

// ── extract_generate ───────────────────────────────────────

#[test]
fn test_extract_generate_basic() {
    let (topic, style) = extract_generate("写一篇关于AI的文章用鲁迅风格").unwrap();
    assert_eq!(topic, "关于AI的文章");
    assert_eq!(style, "鲁迅");
}

#[test]
fn test_extract_generate_xuanti() {
    let (topic, style) = extract_generate("选题关于Rust用张三风格").unwrap();
    assert_eq!(topic, "关于Rust");
    assert_eq!(style, "张三");
}

#[test]
fn test_extract_generate_no_match() {
    assert!(extract_generate("写一篇文章").is_none());
    assert!(extract_generate("用鲁迅风格写一篇").is_none());
}
#[test]
fn test_extract_generate_with_multi_paragraph_material() {
    // 多段落素材不应污染指令行的 topic/style 提取
    let input = "写一篇关于AI Agent的文章，用轻辩风格\n\n以下是参考素材：\n第一段：某个用强化学习训练Agent的实验表明...\n第二段：关于写作风格的讨论可以参考...";
    let (topic, style) = extract_generate(input).unwrap();
    assert_eq!(topic, "关于AI Agent的文章，");
    assert_eq!(style, "轻辩");
}

#[test]
fn test_extract_generate_with_material_containing_style_keyword() {
    // 素材中包含“风格”字眼，不应误导解析
    let input = "写一篇关于编程的文章用张三风格\\n\\n参考：你的写作风格应该注意...";
    let (topic, style) = extract_generate(input).unwrap();
    assert_eq!(topic, "关于编程的文章");
    assert_eq!(style, "张三");
}

#[test]
fn test_extract_generate_single_line_still_works() {
    // 单行输入回归测试
    let (topic, style) = extract_generate("写一篇关于AI的文章用鲁迅风格").unwrap();
    assert_eq!(topic, "关于AI的文章");
    assert_eq!(style, "鲁迅");
    // 选题模式单行回归
    let (topic, style) = extract_generate("选题关于Rust用张三风格").unwrap();
    assert_eq!(topic, "关于Rust");
    assert_eq!(style, "张三");
}

// ── extract_update ─────────────────────────────────────────

#[test]
fn test_extract_update() {
    let (path, inst) =
        extract_update("重写 outputs/test_v1.md 改成更正式的语气").unwrap();
    assert_eq!(path, "outputs/test_v1.md");
    assert_eq!(inst, "更正式的语气");
}

#[test]
fn test_extract_update_no_match() {
    assert!(extract_update("修改 outputs/test_v1.md 的语气").is_none());
}

// ── extract_refine ─────────────────────────────────────────

#[test]
fn test_extract_refine() {
    let (path, inst) = extract_refine("outputs/test_v1.md 改更简洁").unwrap();
    assert_eq!(path, "outputs/test_v1.md");
    assert_eq!(inst, "更简洁");
}

#[test]
fn test_extract_refine_excludes_update() {
    // 同时满足 update 和 refine 时，refine 应返回 None
    assert!(extract_refine("重写 outputs/test_v1.md 改成更正式").is_none());
}

// ── extract_style_name ─────────────────────────────────────

#[test]
fn test_extract_style_name_kankan() {
    assert_eq!(
        extract_style_name("看看鲁迅风格").unwrap(),
        "鲁迅"
    );
}

#[test]
fn test_extract_style_name_delete() {
    assert_eq!(
        extract_style_name("删掉测试风格").unwrap(),
        "测试"
    );
}

#[test]
fn test_extract_style_name_gaifengge() {
    assert_eq!(
        extract_style_name("改风格鲁迅").unwrap(),
        "鲁迅"
    );
}

// ── parse_intent: Layer 1 ──────────────────────────────────

#[test]
fn test_parse_url_is_learn() {
    let result = parse_intent("https://example.com", &SessionState::Idle);
    assert!(matches!(result, Intent::Learn { .. }));
}

#[test]
fn test_parse_list_styles() {
    let result = parse_intent("风格库里有什么", &SessionState::Idle);
    assert!(matches!(result, Intent::ListStyles));
}

#[test]
fn test_parse_show_style() {
    let result = parse_intent("看看鲁迅风格", &SessionState::Idle);
    assert!(matches!(result, Intent::ShowStyle { .. }));
}

#[test]
fn test_parse_delete_style() {
    let result = parse_intent("删掉测试风格", &SessionState::Idle);
    assert!(matches!(result, Intent::DeleteStyle { .. }));
}

#[test]
fn test_parse_generate() {
    let result = parse_intent("写一篇关于AI的文章用鲁迅风格", &SessionState::Idle);
    assert!(matches!(result, Intent::Generate { .. }));
}

#[test]
fn test_parse_update() {
    let result =
        parse_intent("重写 outputs/test.md 改成更正式", &SessionState::Idle);
    assert!(matches!(result, Intent::UpdateFile { .. }));
}

#[test]
fn test_parse_refine() {
    let result = parse_intent("outputs/test.md 改一下第二段", &SessionState::Idle);
    assert!(matches!(result, Intent::RefineFile { .. }));
}

// ── parse_intent: Layer 2 ──────────────────────────────────

#[test]
fn test_idle_unknown_on_unmatched() {
    let result = parse_intent("随便说点什么", &SessionState::Idle);
    assert!(matches!(result, Intent::Unknown));
}

#[test]
fn test_confirm_in_waiting_state() {
    let result = parse_intent("ok", &SessionState::WaitingForOutline);
    assert!(matches!(result, Intent::Confirm));
}

#[test]
fn test_cancel_in_waiting_state() {
    let result = parse_intent("算了", &SessionState::WaitingForFulltext);
    assert!(matches!(result, Intent::Cancel));
}

#[test]
fn test_waiting_for_publish_website_only() {
    let result = parse_intent("只发网站", &SessionState::WaitingForPublish);
    assert!(matches!(result, Intent::PublishWebsiteOnly));
}

#[test]
fn test_waiting_for_publish_publish() {
    let result = parse_intent("发布吧", &SessionState::WaitingForPublish);
    assert!(matches!(result, Intent::Publish));
}

#[test]
fn test_waiting_for_publish_hold() {
    let result = parse_intent("等一下", &SessionState::WaitingForPublish);
    assert!(matches!(result, Intent::Hold));
}

#[test]
fn test_waiting_for_outline_modify() {
    let result = parse_intent("第二部分太长了", &SessionState::WaitingForOutline);
    assert!(matches!(result, Intent::ModifyOutline { .. }));
}

#[test]
fn test_waiting_for_fulltext_change_style() {
    let result = parse_intent("换成鲁迅风格", &SessionState::WaitingForFulltext);
    assert!(matches!(result, Intent::ChangeStyle { .. }));
}

#[test]
fn test_waiting_for_fulltext_modify_section() {
    let result = parse_intent("第三段需要更多案例", &SessionState::WaitingForFulltext);
    assert!(matches!(result, Intent::ModifySection { .. }));
}

#[test]
fn test_empty_input_is_unknown() {
    let result = parse_intent("   ", &SessionState::WaitingForOutline);
    assert!(matches!(result, Intent::Unknown));
}

// ── Priority: URL beats other patterns ─────────────────────

#[test]
fn test_url_priority_over_generate() {
    let result = parse_intent(
        "写一篇用鲁迅风格 https://example.com",
        &SessionState::Idle,
    );
    assert!(matches!(result, Intent::Learn { .. }));
}

// ── Priority: ShowStyle before DeleteStyle ──────────────────

#[test]
fn test_show_style_before_delete() {
    let result = parse_intent("删掉看看的风格", &SessionState::Idle);
    assert!(matches!(result, Intent::ShowStyle { .. }));
}

// ── Priority: UpdateFile before RefineFile ──────────────────

#[test]
fn test_update_before_refine() {
    let result = parse_intent("重写 a.md 改成更正式", &SessionState::Idle);
    assert!(matches!(result, Intent::UpdateFile { .. }));
}

// ── Exact values and laws ────────────────────────────────────

#[test]
fn parse_generate_fields() {
    match parse_intent("写一篇关于AI的文章用鲁迅风格", &SessionState::Idle) {
        Intent::Generate { topic, style_name } => {
            assert_eq!(topic, "关于AI的文章");
            assert_eq!(style_name, "鲁迅");
        }
        other => panic!("unexpected {:?}", other),
    }
}

#[test]
fn parse_update_fields() {
    match parse_intent("重写 outputs/test.md 改成更正式", &SessionState::Idle) {
        Intent::UpdateFile { path, instruction } => {
            assert_eq!(path, "outputs/test.md");
            assert_eq!(instruction, "更正式");
        }
        other => panic!("unexpected {:?}", other),
    }
}

#[test]
fn blank_input_is_unknown_in_every_state() {
    for state in [
        SessionState::Idle,
        SessionState::WaitingForOutline,
        SessionState::WaitingForFulltext,
        SessionState::WaitingForPublish,
    ] {
        assert!(matches!(parse_intent(" \t\n", &state), Intent::Unknown));
    }
}

#[test]
fn standalone_request_is_the_same_in_every_state() {
    for state in [
        SessionState::Idle,
        SessionState::WaitingForOutline,
        SessionState::WaitingForFulltext,
        SessionState::WaitingForPublish,
    ] {
        match parse_intent("学一下 https://example.com/a", &state) {
            Intent::Learn { url } => assert_eq!(url, "https://example.com/a"),
            other => panic!("unexpected {:?}", other),
        }
    }
}

#[test]
fn idle_does_not_confirm_or_cancel() {
    assert!(matches!(parse_intent("ok", &SessionState::Idle), Intent::Unknown));
    assert!(matches!(parse_intent("算了", &SessionState::Idle), Intent::Unknown));
}

#[test]
fn waiting_outline_modify_keeps_trimmed_text() {
    match parse_intent("  第二部分太长了  ", &SessionState::WaitingForOutline) {
        Intent::ModifyOutline { instruction } => assert_eq!(instruction, "第二部分太长了"),
        other => panic!("unexpected {:?}", other),
    }
}

#[test]
fn change_style_name_is_extracted() {
    match parse_intent("换成鲁迅风格", &SessionState::WaitingForFulltext) {
        Intent::ChangeStyle { style_name } => assert_eq!(style_name, "鲁迅"),
        other => panic!("unexpected {:?}", other),
    }
}

#[test]
fn english_words_are_compared_lowercased() {
    assert!(is_english_confirm("ok"));
    assert!(!is_english_confirm("OK"));
    assert!(is_english_cancel("n"));
    assert!(!is_english_cancel("nope"));
    assert!(is_confirm("YES"));
    assert!(is_cancel("No"));
}

#[test]
fn hold_words_win_over_publish_words() {
    assert!(matches!(parse_intent("先不发", &SessionState::WaitingForPublish), Intent::Hold));
    assert!(matches!(parse_intent("看看", &SessionState::WaitingForPublish), Intent::Hold));
    assert!(matches!(parse_intent("我再看看再发", &SessionState::WaitingForPublish), Intent::Hold));
    assert!(matches!(parse_intent("发吧", &SessionState::WaitingForPublish), Intent::Publish));
    assert!(matches!(
        parse_intent("只发网站", &SessionState::WaitingForPublish),
        Intent::PublishWebsiteOnly
    ));
}

#[test]
fn url_found_only_with_a_scheme() {
    assert_eq!(extract_url("see ftp://x and www.y"), None);
    assert_eq!(extract_url("a http://b c"), Some("http://b".to_string()));
    assert_eq!(extract_url("xhttps://q r"), Some("https://q".to_string()));
}

#[test]
fn ascii_confirm_and_cancel_exclude_each_other() {
    for w in ["OK", "Yes", "Y", "Cancel", "NO", "n", "maybe"] {
        assert!(!(is_confirm(w) && is_cancel(w)));
    }
    assert!(is_confirm(" yEs "));
    assert!(is_cancel("CaNcEl"));
}
