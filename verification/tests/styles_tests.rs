use cognitive_writer::error::AppError;
use cognitive_writer::styles::{
    extract_description, first_content_match, is_recent_query, no_styles_error,
    pick_most_recent, style_match_step, style_summaries, MatchStep,
};

// ── extract_description ─────────────────────────────────────────

#[test]
fn test_extract_description_basic() {
    let input = "# 标题\n这是描述。\n第二段。";
    assert_eq!(extract_description(input), "这是描述。");
}

#[test]
fn test_extract_description_skips_empty_lines() {
    let input = "\n\n# 标题\n\n这是描述内容。";
    assert_eq!(extract_description(input), "这是描述内容。");
}

#[test]
fn test_extract_description_no_description() {
    let input = "# 只有标题\n## 二级\n### 三级";
    assert_eq!(extract_description(input), "");
}

#[test]
fn test_extract_description_empty_input() {
    assert_eq!(extract_description(""), "");
}

#[test]
fn test_extract_description_long_first_sentence() {
    let long = "a".repeat(150) + "。";
    let input = format!("# Title\n{long}");
    let desc = extract_description(&input);
    assert!(desc.len() <= 123); // 120 + "..."
    assert!(desc.ends_with("..."));
}

// ── style matching and listing (over the files read) ──────────

fn entry(name: &str, content: &str) -> (String, Result<String, String>) {
    (name.to_string(), Ok(content.to_string()))
}

#[test]
fn test_fuzzy_match_content_keyword() {
    let entries = vec![
        entry("style_a", "# 风格A\n这是一篇关于轻辩的文章。"),
        entry("style_b", "# 风格B\n普通内容。"),
    ];
    let (name, _content) = first_content_match("轻辩", &entries).unwrap();
    assert_eq!(name, "style_a");
}

#[test]
fn test_fuzzy_match_not_found() {
    let entries = vec![entry("only", "# Only\n没有匹配的内容。")];
    let result = first_content_match("不存在的关键词", &entries);
    assert!(result.is_err());
    match result {
        Err(AppError::NoStyles(m)) => assert_eq!(m, "未找到匹配 '不存在的关键词' 的风格文件"),
        _ => panic!("expected NoStyles"),
    }
}

#[test]
fn test_fuzzy_match_recent_keyword() {
    assert!(is_recent_query("最近用过的风格"));
    let entries = vec![
        ("alpha".to_string(), 5u128, "# Alpha\n第一个文件。".to_string()),
        ("beta".to_string(), 9u128, "# Beta\n第二个文件。".to_string()),
    ];
    let result = pick_most_recent("styles", entries);
    assert!(result.is_ok());
    assert_eq!(result.unwrap().0, "beta");
}

#[test]
fn test_fuzzy_match_empty_dir() {
    let result = pick_most_recent("styles", Vec::new());
    assert!(result.is_err());
    assert_eq!(
        no_styles_error("styles").message(),
        "风格目录无 .md 文件: styles 目录下没有 .md 风格文件"
    );
}

#[test]
fn content_match_stops_at_unreadable_file() {
    let entries = vec![
        ("bad".to_string(), Err("无法读取 `bad.md`".to_string())),
        entry("good", "轻辩"),
    ];
    match first_content_match("轻辩", &entries) {
        Err(AppError::FileRead(m)) => assert_eq!(m, "无法读取 `bad.md`"),
        _ => panic!("expected FileRead"),
    }
}

#[test]
fn test_list_styles_with_desc() {
    let entries = vec![
        (
            "style_b.md".to_string(),
            "style_b".to_string(),
            Ok("# 风格B\n风格B的简介在这里。".to_string()),
        ),
        (
            "style_a.md".to_string(),
            "style_a".to_string(),
            Ok("# 风格A\n这是风格A的第一段描述内容。\n## 二级标题\n更多内容。".to_string()),
        ),
    ];
    let summaries = style_summaries("styles", &entries).unwrap();
    assert_eq!(summaries.len(), 2);
    assert_eq!(summaries[0].display_name, "style_a");
    assert_eq!(summaries[1].display_name, "style_b");
    assert_eq!(summaries[0].filename, "style_a.md");
    assert!(summaries[0].description.contains("风格A"));
    assert!(summaries[1].description.contains("风格B"));
}

#[test]
fn test_list_styles_empty_dir() {
    let result = style_summaries("styles", &Vec::new());
    assert!(result.is_err());
}

#[test]
fn description_cut_at_sentence_end() {
    assert_eq!(extract_description("## 标题\n  第一句！第二句。"), "第一句！");
    let long = "字".repeat(130);
    assert_eq!(extract_description(&long), format!("{}...", "字".repeat(120)));
}

#[test]
fn test_fuzzy_match_exact_filename() {
    let exact = Some(Ok("# 轻辩风格\n这是轻辩的描述内容。".to_string()));
    match style_match_step("styles", "qingbian", 2, exact) {
        MatchStep::Found(name, content) => {
            assert_eq!(name, "qingbian");
            assert!(content.contains("轻辩风格"));
        }
        _ => panic!("expected the exact file"),
    }
}

#[test]
fn style_match_steps() {
    match style_match_step("styles", "x", 0, None) {
        MatchStep::Fail(AppError::NoStyles(m)) => assert_eq!(m, "styles 目录下没有 .md 风格文件"),
        _ => panic!("expected NoStyles"),
    }
    match style_match_step("styles", "x", 1, Some(Err("无法读取 `x.md`".to_string()))) {
        MatchStep::Fail(AppError::FileRead(m)) => assert_eq!(m, "无法读取 `x.md`"),
        _ => panic!("expected FileRead"),
    }
    assert!(matches!(style_match_step("styles", "刚学的", 1, None), MatchStep::Newest));
    assert!(matches!(style_match_step("styles", "轻辩", 1, None), MatchStep::ScanContents));
}

#[test]
fn test_list_styles_no_md_files() {
    assert!(!cognitive_writer::files::is_md_path("/tmp/x/notes.txt"));
    let result = style_summaries("/tmp/x", &Vec::new());
    assert!(result.is_err());
}
