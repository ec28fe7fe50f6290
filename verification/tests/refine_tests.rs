use cognitive_writer::refine::{apply_rewrite, apply_rewrites, parse_ai_edits};

// ── parse_ai_edits ──────────────────────────────────────────

#[test]
fn test_parse_single_ai_edit() {
    let content = "<AI_EDIT instruction=\"修复语法错误\">原始文本内容</AI_EDIT>";
    let edits = parse_ai_edits(content).unwrap();
    assert_eq!(edits.len(), 1);
    assert_eq!(edits[0].instruction, "修复语法错误");
    assert_eq!(edits[0].original, "原始文本内容");
}

#[test]
fn test_parse_multiple_ai_edits() {
    let content = "<AI_EDIT instruction=\"第一个修改\">文本A</AI_EDIT>\
                   中间无关内容\
                   <AI_EDIT instruction=\"第二个修改\">文本B</AI_EDIT>";
    let edits = parse_ai_edits(content).unwrap();
    assert_eq!(edits.len(), 2);
    assert_eq!(edits[0].instruction, "第一个修改");
    assert_eq!(edits[0].original, "文本A");
    assert_eq!(edits[1].instruction, "第二个修改");
    assert_eq!(edits[1].original, "文本B");
}

#[test]
fn test_parse_ai_edit_multiline_original() {
    let content = "<AI_EDIT instruction=\"重构段落\">第一行\n第二行\n第三行</AI_EDIT>";
    let edits = parse_ai_edits(content).unwrap();
    assert_eq!(edits.len(), 1);
    assert_eq!(edits[0].original, "第一行\n第二行\n第三行");
}

#[test]
fn test_parse_ai_edits_no_tag_is_error() {
    let result = parse_ai_edits("没有任何标记的普通文本");
    assert!(result.is_err());
    { let err_msg = result.err().unwrap(); assert!(err_msg.contains("未找到")); };
}

#[test]
fn test_parse_ai_edits_missing_instruction_is_error() {
    // <AI_EDIT> 不带 instruction 属性
    let result = parse_ai_edits("<AI_EDIT >文本</AI_EDIT>");
    assert!(result.is_err());
    { let err_msg = result.err().unwrap(); assert!(err_msg.contains("instruction")); };
}

#[test]
fn test_parse_ai_edits_unclosed_tag_is_error() {
    let result = parse_ai_edits("<AI_EDIT instruction=\"测试\">缺少闭合标签");
    assert!(result.is_err());
}

#[test]
fn test_parse_ai_edits_instruction_with_inner_single_quotes() {
    // instruction 属性值含单引号
    let content = "<AI_EDIT instruction=\"把'你好'改成'您好'\">你好</AI_EDIT>";
    let edits = parse_ai_edits(content).unwrap();
    assert_eq!(edits.len(), 1);
    assert_eq!(edits[0].instruction, "把'你好'改成'您好'");
    assert_eq!(edits[0].original, "你好");
}

#[test]
fn test_parse_ai_edits_full_match_includes_tags() {
    let content = "<AI_EDIT instruction=\"测试\">原文</AI_EDIT>";
    let edits = parse_ai_edits(content).unwrap();
    assert_eq!(edits.len(), 1);
    assert_eq!(edits[0].full_match, "<AI_EDIT instruction=\"测试\">原文</AI_EDIT>");
}

#[test]
fn parse_ai_edits_no_tag_exact_message() {
    assert_eq!(
        parse_ai_edits("纯文本").err().unwrap(),
        "未找到 AI_EDIT 标记"
    );
}

#[test]
fn apply_rewrite_replaces_first_marker_only() {
    let content = "A<AI_EDIT instruction=\"x\">o</AI_EDIT>B<AI_EDIT instruction=\"x\">o</AI_EDIT>";
    let edits = parse_ai_edits(content).unwrap();
    let out = apply_rewrite(content, &edits[0].full_match, "新");
    assert_eq!(out, "A新B<AI_EDIT instruction=\"x\">o</AI_EDIT>");
    assert_eq!(apply_rewrite("abc", "zz", "Q"), "abc");
}

#[test]
fn apply_rewrites_applies_each_rewrite_in_order() {
    let content = "A<AI_EDIT instruction=\"x\">o</AI_EDIT>B<AI_EDIT instruction=\"x\">o</AI_EDIT>C<AI_EDIT instruction=\"y\">p</AI_EDIT>";
    let edits = parse_ai_edits(content).unwrap();
    assert_eq!(edits.len(), 3);
    let rewrites = vec!["一".to_string(), "二".to_string(), "三".to_string()];
    assert_eq!(apply_rewrites(content, &edits, &rewrites), "A一B二C三");
    assert_eq!(apply_rewrites("plain", &Vec::new(), &Vec::new()), "plain");
}

#[test]
fn parse_ai_edits_errors_give_byte_positions() {
    assert_eq!(
        parse_ai_edits("<AI_EDIT instruction=\"测试\">缺少闭合标签").err().unwrap(),
        "未找到匹配的 </AI_EDIT> (位置 0)"
    );
    assert_eq!(
        parse_ai_edits("中<AI_EDIT >文本</AI_EDIT>").err().unwrap(),
        "AI_EDIT 标签缺少 instruction 属性 (位置 3)"
    );
}
