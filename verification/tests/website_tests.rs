use cognitive_writer::website::{
    combine_git_output, extract_summary, git_failure_message, join_path, mdx_content, mdx_draft,
    publish_next, publish_to_website, GitOutcome, PublishAction, PublishStep,
};

fn is_dir(path: &str) -> bool {
    std::path::Path::new(path).is_dir()
}

// ── extract_summary ──────────────────────────────────────────

#[test]
fn test_extract_summary_skips_headings() {
    let input = "# Title\n\nContent here";
    assert_eq!(extract_summary(input, 150), "Content here");
}

#[test]
fn test_extract_summary_truncates() {
    let input = "A".repeat(200);
    let result = extract_summary(&input, 100);
    assert!(result.ends_with("..."));
    // 对于全 A 无空格的文本，直接截断到 100 字符 + ...
    assert_eq!(result.len(), 103); // 100 chars + "..."
}

#[test]
fn test_extract_summary_truncates_at_word_boundary() {
    // "Hello world t" = 12 chars, 在 "world" 后的空格处截断
    let input = "Hello world this is a test sentence for word boundary truncation";
    let result = extract_summary(input, 12);
    assert_eq!(result, "Hello world...");
}

#[test]
fn test_extract_summary_empty() {
    assert_eq!(extract_summary("", 150), "");
}

#[test]
fn test_extract_summary_no_headings_empty_lines() {
    // 只有标题和空行，没有正文内容
    let input = "# Title\n## Subtitle\n\n\n";
    assert_eq!(extract_summary(input, 150), "");
}

#[test]
fn test_extract_summary_no_truncation_needed() {
    let input = "Short paragraph.";
    assert_eq!(extract_summary(input, 150), "Short paragraph.");
}

// ── MDX drafts ────────────────────────────────────────────────

#[test]
fn test_write_mdx_draft_nonexistent_website_path() {
    let website_path = "/nonexistent/path/for/testing/12345";
    let result = mdx_draft(website_path, is_dir(website_path), "signal", "slug", "Title", "Body");
    assert!(result.is_err());
    let err = result.err().unwrap();
    let err_msg = err.message();
    assert!(err_msg.contains("网站项目路径不存在"));
}

#[test]
fn test_write_mdx_draft_creates_file() {
    let draft = mdx_draft(
        "/site",
        true,
        "signal",
        "test-post",
        "测试文章",
        "这是文章正文的第一段。这是更多的内容。",
    )
    .unwrap();
    assert!(draft.file.ends_with("test-post.mdx"));
    assert_eq!(draft.dir, "/site/content/signal");
    assert_eq!(draft.file, "/site/content/signal/test-post.mdx");
    assert!(draft.content.contains("title: \"测试文章\""));
    assert!(draft.content.contains("summary:"));
    assert!(draft.content.contains("---"));
    assert!(draft.content.contains("这是文章正文的第一段"));
}

#[test]
fn test_write_mdx_draft_content_has_frontmatter() {
    let draft = mdx_draft("/site/", true, "node", "my-article", "My Title", "Some body content here.")
        .unwrap();
    assert!(draft.content.contains("---\ntitle:"));
    assert!(draft.content.contains("date:"));
    assert!(draft.content.contains("summary:"));
    assert!(draft.content.starts_with("---\n"));
    assert_eq!(draft.file, "/site/content/node/my-article.mdx");
}

#[test]
fn test_write_mdx_draft_escapes_quotes_in_title() {
    let content = mdx_content("Title with \"double quotes\"", "2024-01-02", "Body content.");
    assert!(content.contains("title: \"Title with \\\"double quotes\\\"\""));
    assert_eq!(
        content,
        "---\ntitle: \"Title with \\\"double quotes\\\"\"\ndate: \"2024-01-02\"\nsummary: \"Body content.\"\n---\n\nBody content."
    );
}

#[test]
fn draft_dates_look_like_dates() {
    let draft = mdx_draft("/site", true, "pow", "p", "T", "# H\n\n正文").unwrap();
    let date_line = draft.content.lines().nth(2).unwrap();
    assert!(date_line.starts_with("date: \""));
    assert_eq!(date_line.len(), "date: \"2024-01-02\"".len());
}

#[test]
fn paths_join_like_path_join() {
    assert_eq!(join_path("a", "b"), "a/b");
    assert_eq!(join_path("a/", "b"), "a/b");
    assert_eq!(join_path("", "b"), "b");
    assert_eq!(join_path("a", "/b"), "/b");
}

// ── publish_to_website ───────────────────────────────────────

#[test]
fn test_publish_to_website_nonexistent_path() {
    let website_path = "/nonexistent/path/12345";
    let result = publish_to_website(website_path, is_dir(website_path), "test-slug");
    match result {
        PublishAction::Done(Err(err)) => {
            let err_msg = err.message();
            assert!(err_msg.contains("网站项目路径不存在"));
        }
        _ => panic!("expected an error"),
    }
}

fn run_args(a: &PublishAction) -> (PublishStep, Vec<String>) {
    match a {
        PublishAction::Run { step, args } => (*step, args.clone()),
        PublishAction::Done(_) => panic!("expected a git command"),
    }
}

#[test]
fn publishing_runs_add_commit_push() {
    let a = publish_to_website("/site", true, "s1");
    assert_eq!(run_args(&a), (PublishStep::Add, vec!["add".to_string(), "content/signal/s1.mdx".to_string()]));
    let a = publish_next(PublishStep::Add, "s1", &GitOutcome::Succeeded);
    assert_eq!(
        run_args(&a),
        (PublishStep::Commit, vec!["commit".to_string(), "-m".to_string(), "post: s1".to_string()])
    );
    let a = publish_next(PublishStep::Commit, "s1", &GitOutcome::Succeeded);
    assert_eq!(
        run_args(&a),
        (PublishStep::Push, vec!["push".to_string(), "origin".to_string(), "main".to_string()])
    );
    match publish_next(PublishStep::Push, "s1", &GitOutcome::Succeeded) {
        PublishAction::Done(Ok(url)) => assert_eq!(url, "https://khlilo.xyz/signal/s1"),
        _ => panic!("expected the URL"),
    }
}

#[test]
fn nothing_to_commit_goes_on_to_push() {
    let outcome = GitOutcome::Failed {
        stdout: "On branch main\nnothing to commit, working tree clean\n".to_string(),
        stderr: String::new(),
    };
    let a = publish_next(PublishStep::Commit, "s1", &outcome);
    assert_eq!(run_args(&a).0, PublishStep::Push);
}

#[test]
fn git_failures_become_errors() {
    let outcome = GitOutcome::Failed { stdout: "out".to_string(), stderr: " conflict \n".to_string() };
    match publish_next(PublishStep::Commit, "s1", &outcome) {
        PublishAction::Done(Err(e)) => assert_eq!(e.message(), "Git 操作失败: Git 操作失败: out\nconflict"),
        _ => panic!("expected an error"),
    }
    let outcome = GitOutcome::Failed { stdout: String::new(), stderr: "rejected\n".to_string() };
    match publish_next(PublishStep::Push, "s1", &outcome) {
        PublishAction::Done(Err(e)) => assert_eq!(e.message(), "Git 操作失败: git push origin main 失败: rejected"),
        _ => panic!("expected an error"),
    }
    match publish_next(PublishStep::Add, "s1", &GitOutcome::NotRun("not found".to_string())) {
        PublishAction::Done(Err(e)) => assert_eq!(e.message(), "Git 操作失败: 无法执行 git: not found"),
        _ => panic!("expected an error"),
    }
    assert_eq!(combine_git_output("  ", " e "), "e");
    assert_eq!(
        git_failure_message(&vec!["add".to_string(), "x".to_string()], " bad "),
        "git add x 失败: bad"
    );
}

#[test]
fn test_write_mdx_draft_creates_taxonomy_dir() {
    let draft = mdx_draft("/tmp/site", true, "pow", "pow-post", "POW 标题", "# Heading\n\n这是正文内容。")
        .unwrap();
    assert_eq!(draft.dir, "/tmp/site/content/pow");
    assert_eq!(draft.file, "/tmp/site/content/pow/pow-post.mdx");
    assert!(draft.content.contains("summary: \"这是正文内容。\""));
}
