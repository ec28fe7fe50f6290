use cognitive_writer::slug::finish_slug;
use cognitive_writer::files::{
    file_version, is_md_path, list_styles, max_version, next_version, style_label,
    versioned_path,
};
use cognitive_writer::slug::extract_idea_slug;

// ── extract_idea_slug ──────────────────────────────────────

#[test]
fn test_extract_slug_article_theme_with_hash_header() {
    // ## 创作素材 行不会匹配（无文章主题：），第二行提取
    let input = "## 创作素材\n文章主题：分享一个高级的行动逻辑";
    let slug = extract_idea_slug(input);
    // 中文为 Unicode alphanumeric，仅空格被过滤
    assert!(slug.contains("分享一个高级的行动逻辑"));
}

#[test]
fn test_extract_slug_simple_hash_heading() {
    let slug = extract_idea_slug("# 测试标题");
    assert_eq!(slug, "测试标题");
}

#[test]
fn test_extract_slug_hash_article_theme_english() {
    // 空格被过滤 → helloworld
    let slug = extract_idea_slug("#文章主题：hello world");
    assert_eq!(slug, "helloworld");
}

#[test]
fn test_extract_slug_empty_input() {
    let slug = extract_idea_slug("");
    assert_eq!(slug, "untitled");
}

#[test]
fn test_extract_slug_plain_text_no_heading() {
    let slug = extract_idea_slug("这是一段没有标题的纯文本内容");
    assert_eq!(slug, "untitled");
}

#[test]
fn test_extract_slug_article_theme_without_hash() {
    let slug = extract_idea_slug("文章主题：中文标题\n一些正文内容");
    assert_eq!(slug, "中文标题");
}

#[test]
fn test_extract_slug_hash_article_theme_underscore() {
    let slug = extract_idea_slug("# 文章主题：Test_123");
    assert_eq!(slug, "Test_123");
}

#[test]
fn test_extract_slug_only_special_chars() {
    // @ 不是 alphanumeric，全被过滤 → 空 slug → untitled
    let slug = extract_idea_slug("# @@@");
    assert_eq!(slug, "untitled");
}

#[test]
fn test_extract_slug_article_theme_not_first_line() {
    let input = "一些前言说明\n第二行\n文章主题：真正的标题\n正文内容";
    let slug = extract_idea_slug(input);
    assert_eq!(slug, "真正的标题");
}

#[test]
fn test_extract_slug_fallback_to_first_hash_heading() {
    // 没有 文章主题： 时，回退到第一个 # 开头的有内容行
    let input = "# 回退标题";
    let slug = extract_idea_slug(input);
    assert_eq!(slug, "回退标题");
}

// ── next_version (over the file names of the directory) ─────

fn names(list: &[&str]) -> Vec<String> {
    list.iter().map(|s| s.to_string()).collect()
}

#[test]
fn test_next_version_empty_dir() {
    assert_eq!(next_version(&names(&[]), "test"), 1);
}

#[test]
fn test_next_version_has_v1_md() {
    assert_eq!(next_version(&names(&["test_v1.md"]), "test"), 2);
}

#[test]
fn test_next_version_mixed_md_and_html() {
    let dir = names(&["test_v1.md", "test_v1.html", "test_v2.md"]);
    assert_eq!(next_version(&dir, "test"), 3);
}

#[test]
fn test_next_version_different_slugs_independent() {
    let dir = names(&["apple_v1.md", "apple_v2.md"]);
    assert_eq!(next_version(&dir, "banana"), 1);
    assert_eq!(next_version(&dir, "apple"), 3);
}

#[test]
fn test_next_version_only_matches_md_and_html() {
    let dir = names(&["test_v1.txt", "test_v2.pdf"]);
    assert_eq!(next_version(&dir, "test"), 1);
}

#[test]
fn file_versions_follow_u32_parsing() {
    assert_eq!(file_version("a_v7.md", "a"), Some(7));
    assert_eq!(file_version("a_v+7.html", "a"), Some(7));
    assert_eq!(file_version("a_v007.md", "a"), Some(7));
    assert_eq!(file_version("a_v.md", "a"), None);
    assert_eq!(file_version("a_v+.md", "a"), None);
    assert_eq!(file_version("a_v-1.md", "a"), None);
    assert_eq!(file_version("a_v4294967295.md", "a"), Some(4294967295));
    assert_eq!(file_version("a_v4294967296.md", "a"), None);
    assert_eq!(file_version("a_v1.md.bak", "a"), None);
    assert_eq!(file_version("ab_v1.md", "a"), None);
    assert_eq!(max_version(&names(&["a_v4294967295.md"]), "a"), 4294967295);
}

#[test]
fn versioned_paths() {
    assert_eq!(versioned_path("测试", 3, ".md"), "outputs/测试_v3.md");
    assert_eq!(versioned_path("x", 12, ".html"), "outputs/x_v12.html");
}

#[test]
fn style_paths_are_filtered_and_sorted() {
    let paths = names(&["styles/b.md", "styles/notes.txt", "styles/a.md", "styles/.md", "styles/c.MD"]);
    assert_eq!(list_styles("styles", &paths), Ok(names(&["styles/a.md", "styles/b.md"])));
    assert_eq!(
        list_styles("styles", &names(&["styles/x.txt"])),
        Err("styles 目录下没有 .md 风格文件".to_string())
    );
    assert!(is_md_path("dir.d/x.md"));
    assert!(!is_md_path("dir.md/x"));
    assert_eq!(style_label("styles/轻辩.md"), "轻辩.md");
    assert_eq!(style_label("other/x.md"), "other/x.md");
}

#[test]
fn slug_keeps_only_file_safe_characters() {
    assert_eq!(extract_idea_slug("# a/b c.d-e_f"), "abcd-e_f");
    assert_eq!(extract_idea_slug("# ///"), "untitled");
}

#[test]
fn slug_from_alphanumeric_flags() {
    assert_eq!(finish_slug("a b", &vec![true, false, true]), "ab");
    assert_eq!(finish_slug("x_-y", &vec![false, false, false, false]), "_-");
    assert_eq!(finish_slug("@@", &vec![false, false]), "untitled");
    assert_eq!(finish_slug("", &vec![]), "untitled");
}

#[test]
fn test_next_version_nonexistent_dir_returns_1() {
    // A directory that cannot be read contributes no file names.
    assert_eq!(next_version(&names(&[]), "test"), 1);
}

#[test]
fn writing_the_next_version_raises_it_by_one() {
    let mut dir = names(&["t_v1.md", "t_v7.html", "u_v9.md"]);
    let r = next_version(&dir, "t");
    assert_eq!(r, 8);
    dir.push(versioned_path("t", r, ".md").trim_start_matches("outputs/").to_string());
    assert_eq!(next_version(&dir, "t"), 9);
}
