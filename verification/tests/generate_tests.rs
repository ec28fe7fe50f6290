use cognitive_writer::prompts::{outline_system_prompt, render_prompt, style_system_prompt};

#[test]
fn test_outline_system_prompt_includes_style_and_structure() {
    let p = outline_system_prompt("## 定位\n理性分析");
    assert!(p.contains("写作结构设计专家"));
    assert!(p.contains("## 定位"));
    assert!(p.contains("理性分析"));
    assert!(p.contains("破题"));
    assert!(p.contains("收束"));
}

#[test]
fn test_style_system_prompt_wraps_style_with_constraints() {
    let p = style_system_prompt("## 定位\n理性分析");
    assert!(p.contains("## 定位"));
    assert!(p.contains("只输出 Markdown 正文"));
    assert!(p.contains("禁止"));
    assert!(p.contains("硬约束"));
}

#[test]
fn test_render_prompt_contains_outline_and_idea() {
    let p = render_prompt("## 大纲标题", "这是素材");
    assert!(p.contains("## 大纲标题"));
    assert!(p.contains("这是素材"));
    assert!(p.contains("不要输出核对过程"));
}

#[test]
fn render_prompt_exact_layout() {
    let p = render_prompt("O", "I");
    assert!(p.starts_with("以下是符合风格的逻辑大纲，请严格按此结构展开正文：\n\n---\nO\n---\n\n原始素材：\n\n---\nI\n---\n\n"));
}

#[test]
fn style_prompt_embeds_style_between_rules() {
    let p = style_system_prompt("STYLE");
    assert!(p.starts_with("你是一名中文写作者。以下是必须严格遵循的写作风格，逐条执行，这是硬约束：\n\n---\nSTYLE\n---\n\n"));
    let o = outline_system_prompt("STYLE");
    assert!(o.contains("\n\n---\nSTYLE\n---\n\n"));
}
