//! Prompt texts sent to the language model.

use vstd::prelude::*;
use crate::text::{contains_seq, occurs_at, push_str, string_of};

verus! {

broadcast use vstd::string::group_string_axioms;

/// System prompt for rewriting a whole article (also used to switch styles).
pub const UPDATE_SYSTEM_PROMPT: &'static str = "你是严苛的文本编辑。用户会给你一篇完整的文章和一条修改指令，你需要根据修改指令重写整篇文章。\n\n要求：\n1. 保持原文的整体结构和段落数量\n2. 只修改与指令相关的部分，其余内容保持不变\n3. 直接输出完整的修改后 Markdown，不要任何解释、说明或代码块包裹\n4. 输出必须是可发布的最终版本";

/// System prompt for revising an outline in a session.
pub const OUTLINE_REVISION_SYSTEM_PROMPT: &'static str = "你是一个写作结构设计专家。\n用户会给你一份创作素材，你需要输出一份文章逻辑大纲。\n\n要求：\n1. 用 Markdown 层级列表（- / 1. 2. 3.）\n2. 每个节点写清该段的【核心论点】和【支撑素材/案例方向】\n3. 标注段落之间的逻辑衔接关系（递进/转折/并列/因果）\n4. 控制在 300-500 字以内\n5. 不要写正文，只输出骨架";

/// Pass-1 system prompt: the outline must already follow the style.
pub open spec fn outline_system_text(style: Seq<char>) -> Seq<char> {
    "你是一个写作结构设计专家。\n\n以下是本次文章必须遵循的写作风格（逐条执行，硬约束）：\n\n---\n"@ + style + "\n---\n\n用户会给你一份创作素材，请输出一份【符合上述风格】的文章逻辑大纲。\n\n要求：\n1. 用 Markdown 层级列表（- / 1. 2. 3.）\n2. 开头节点体现风格的破题方式，结尾节点体现风格的收束方式\n3. 每个节点写清该段的【核心判断】和【支撑素材方向】，核心判断要符合风格的论证方式\n4. 标注段落之间的逻辑衔接关系（递进/转折/并列/因果）\n5. 控制在 300-500 字以内\n6. 不要写正文，只输出大纲骨架"@
}

/// Pass-1 system prompt: the outline must already follow the style.
pub fn outline_system_prompt(style: &str) -> (r: String)
    ensures
        r@ == outline_system_text(style@),
{
    let mut v: Vec<char> = Vec::new();
    push_str(&mut v, "你是一个写作结构设计专家。\n\n以下是本次文章必须遵循的写作风格（逐条执行，硬约束）：\n\n---\n");
    push_str(&mut v, style);
    push_str(&mut v, "\n---\n\n用户会给你一份创作素材，请输出一份【符合上述风格】的文章逻辑大纲。\n\n要求：\n1. 用 Markdown 层级列表（- / 1. 2. 3.）\n2. 开头节点体现风格的破题方式，结尾节点体现风格的收束方式\n3. 每个节点写清该段的【核心判断】和【支撑素材方向】，核心判断要符合风格的论证方式\n4. 标注段落之间的逻辑衔接关系（递进/转折/并列/因果）\n5. 控制在 300-500 字以内\n6. 不要写正文，只输出大纲骨架");
    string_of(v.as_slice())
}

/// Pass-2 system prompt: the style spec wrapped in the constraints shared by every style (body only, no invented facts, 禁止 wins on conflict).
pub open spec fn style_system_text(style: Seq<char>) -> Seq<char> {
    "你是一名中文写作者。以下是必须严格遵循的写作风格，逐条执行，这是硬约束：\n\n---\n"@ + style + "\n---\n\n通用约束：\n- 只输出 Markdown 正文，不复述风格规则，不输出思考、自检或写作过程\n- 不添加素材中没有依据的事实、数据、实验结论或名人观点\n- 风格规则若冲突，以「禁止」一节为准"@
}

/// Pass-2 system prompt: the style spec wrapped in the constraints shared by every style (body only, no invented facts, 禁止 wins on conflict).
pub fn style_system_prompt(style: &str) -> (r: String)
    ensures
        r@ == style_system_text(style@),
{
    let mut v: Vec<char> = Vec::new();
    push_str(&mut v, "你是一名中文写作者。以下是必须严格遵循的写作风格，逐条执行，这是硬约束：\n\n---\n");
    push_str(&mut v, style);
    push_str(&mut v, "\n---\n\n通用约束：\n- 只输出 Markdown 正文，不复述风格规则，不输出思考、自检或写作过程\n- 不添加素材中没有依据的事实、数据、实验结论或名人观点\n- 风格规则若冲突，以「禁止」一节为准");
    string_of(v.as_slice())
}

/// Pass-2 user prompt: the outline, the material, and a self-check before output.
pub open spec fn render_text(outline: Seq<char>, idea: Seq<char>) -> Seq<char> {
    "以下是符合风格的逻辑大纲，请严格按此结构展开正文：\n\n---\n"@ + outline + "\n---\n\n原始素材：\n\n---\n"@ + idea + "\n---\n\n请按大纲结构展开，输出完整的 Markdown 正文。输出前核对：开头破题、核心论证、段落节奏、句式人称、结尾收束是否符合给定风格，是否出现 AI 套话或素材外事实；核对后直接输出正文，不要输出核对过程。"@
}

/// Pass-2 user prompt: the outline, the material, and a self-check before output.
pub fn render_prompt(outline: &str, idea: &str) -> (r: String)
    ensures
        r@ == render_text(outline@, idea@),
{
    let mut v: Vec<char> = Vec::new();
    push_str(&mut v, "以下是符合风格的逻辑大纲，请严格按此结构展开正文：\n\n---\n");
    push_str(&mut v, outline);
    push_str(&mut v, "\n---\n\n原始素材：\n\n---\n");
    push_str(&mut v, idea);
    push_str(&mut v, "\n---\n\n请按大纲结构展开，输出完整的 Markdown 正文。输出前核对：开头破题、核心论证、段落节奏、句式人称、结尾收束是否符合给定风格，是否出现 AI 套话或素材外事实；核对后直接输出正文，不要输出核对过程。");
    string_of(v.as_slice())
}

/// User prompt for rewriting one marked fragment.
pub open spec fn edit_fragment_text(instruction: Seq<char>, original: Seq<char>) -> Seq<char> {
    "修改指令："@ + instruction + "\n\n原文本：\n"@ + original
}

/// User prompt for rewriting one marked fragment.
pub fn edit_fragment_prompt(instruction: &str, original: &str) -> (r: String)
    ensures
        r@ == edit_fragment_text(instruction@, original@),
{
    let mut v: Vec<char> = Vec::new();
    push_str(&mut v, "修改指令：");
    push_str(&mut v, instruction);
    push_str(&mut v, "\n\n原文本：\n");
    push_str(&mut v, original);
    string_of(v.as_slice())
}

/// User prompt for rewriting a whole article according to an instruction.
pub open spec fn rewrite_article_text(article: Seq<char>, instruction: Seq<char>) -> Seq<char> {
    "以下是需要修改的文章全文：\n\n---\n"@ + article + "\n---\n\n修改指令："@ + instruction + "\n\n请根据修改指令输出修改后的完整 Markdown 正文。"@
}

/// User prompt for rewriting a whole article according to an instruction.
pub fn rewrite_article_prompt(article: &str, instruction: &str) -> (r: String)
    ensures
        r@ == rewrite_article_text(article@, instruction@),
{
    let mut v: Vec<char> = Vec::new();
    push_str(&mut v, "以下是需要修改的文章全文：\n\n---\n");
    push_str(&mut v, article);
    push_str(&mut v, "\n---\n\n修改指令：");
    push_str(&mut v, instruction);
    push_str(&mut v, "\n\n请根据修改指令输出修改后的完整 Markdown 正文。");
    string_of(v.as_slice())
}

/// User prompt for adjusting an outline.
pub open spec fn modify_outline_text(outline: Seq<char>, idea: Seq<char>, instruction: Seq<char>) -> Seq<char> {
    "以下是一篇文章的逻辑大纲：\n\n---\n"@ + outline + "\n---\n\n原始素材：\n\n---\n"@ + idea + "\n---\n\n请根据以下修改指令调整大纲：\n"@ + instruction + "\n\n请输出修改后的完整大纲。"@
}

/// User prompt for adjusting an outline.
pub fn modify_outline_prompt(outline: &str, idea: &str, instruction: &str) -> (r: String)
    ensures
        r@ == modify_outline_text(outline@, idea@, instruction@),
{
    let mut v: Vec<char> = Vec::new();
    push_str(&mut v, "以下是一篇文章的逻辑大纲：\n\n---\n");
    push_str(&mut v, outline);
    push_str(&mut v, "\n---\n\n原始素材：\n\n---\n");
    push_str(&mut v, idea);
    push_str(&mut v, "\n---\n\n请根据以下修改指令调整大纲：\n");
    push_str(&mut v, instruction);
    push_str(&mut v, "\n\n请输出修改后的完整大纲。");
    string_of(v.as_slice())
}

/// User prompt for rewriting an article in another style.
pub open spec fn change_style_text(article: Seq<char>, style: Seq<char>) -> Seq<char> {
    "以下是需要修改的文章全文：\n\n---\n"@ + article + "\n---\n\n请将以上文章改写为以下风格：\n\n---\n"@ + style + "\n---\n\n请输出改写后的完整 Markdown 正文。"@
}

/// User prompt for rewriting an article in another style.
pub fn change_style_prompt(article: &str, style: &str) -> (r: String)
    ensures
        r@ == change_style_text(article@, style@),
{
    let mut v: Vec<char> = Vec::new();
    push_str(&mut v, "以下是需要修改的文章全文：\n\n---\n");
    push_str(&mut v, article);
    push_str(&mut v, "\n---\n\n请将以上文章改写为以下风格：\n\n---\n");
    push_str(&mut v, style);
    push_str(&mut v, "\n---\n\n请输出改写后的完整 Markdown 正文。");
    string_of(v.as_slice())
}

proof fn lemma_carries(pre: Seq<char>, x: Seq<char>, post: Seq<char>, whole: Seq<char>)
    requires
        whole =~= pre + x + post,
    ensures
        occurs_at(whole, x, pre.len() as int),
        contains_seq(whole, x),
{
    assert(whole.subrange(pre.len() as int, (pre.len() + x.len()) as int) =~= x);
    assert(occurs_at(whole, x, pre.len() as int));
}

/// Every prompt carries what it is built from, whole: the style in the
/// system prompts; the outline and the material in the rendering prompt;
/// the instruction and the original text in the fragment prompt; the
/// article and the instruction in the rewriting prompt; the outline, the
/// material and the instruction in the outline revision prompt; the article
/// and the new style in the style change prompt.
pub proof fn law_prompts_carry_inputs(a: Seq<char>, b: Seq<char>, c: Seq<char>)
    ensures
        contains_seq(outline_system_text(a), a),
        contains_seq(style_system_text(a), a),
        contains_seq(render_text(a, b), a) && contains_seq(render_text(a, b), b),
        contains_seq(edit_fragment_text(a, b), a) && contains_seq(edit_fragment_text(a, b), b),
        contains_seq(rewrite_article_text(a, b), a) && contains_seq(rewrite_article_text(a, b), b),
        contains_seq(modify_outline_text(a, b, c), a) && contains_seq(modify_outline_text(a, b, c), b)
            && contains_seq(modify_outline_text(a, b, c), c),
        contains_seq(change_style_text(a, b), a) && contains_seq(change_style_text(a, b), b),
{
    let t = outline_system_text(a);
    let p0 = "你是一个写作结构设计专家。\n\n以下是本次文章必须遵循的写作风格（逐条执行，硬约束）：\n\n---\n"@;
    lemma_carries(p0, a, t.skip((p0.len() + a.len()) as int), t);
    let t = style_system_text(a);
    let p0 = "你是一名中文写作者。以下是必须严格遵循的写作风格，逐条执行，这是硬约束：\n\n---\n"@;
    lemma_carries(p0, a, t.skip((p0.len() + a.len()) as int), t);
    let t = render_text(a, b);
    let p0 = "以下是符合风格的逻辑大纲，请严格按此结构展开正文：\n\n---\n"@;
    let p1 = "\n---\n\n原始素材：\n\n---\n"@;
    lemma_carries(p0, a, t.skip((p0.len() + a.len()) as int), t);
    lemma_carries(p0 + a + p1, b, t.skip((p0.len() + a.len() + p1.len() + b.len()) as int), t);
    let t = edit_fragment_text(a, b);
    let p0 = "修改指令："@;
    let p1 = "\n\n原文本：\n"@;
    lemma_carries(p0, a, t.skip((p0.len() + a.len()) as int), t);
    lemma_carries(p0 + a + p1, b, Seq::empty(), t);
    let t = rewrite_article_text(a, b);
    let p0 = "以下是需要修改的文章全文：\n\n---\n"@;
    let p1 = "\n---\n\n修改指令："@;
    lemma_carries(p0, a, t.skip((p0.len() + a.len()) as int), t);
    lemma_carries(p0 + a + p1, b, t.skip((p0.len() + a.len() + p1.len() + b.len()) as int), t);
    let t = modify_outline_text(a, b, c);
    let p0 = "以下是一篇文章的逻辑大纲：\n\n---\n"@;
    let p1 = "\n---\n\n原始素材：\n\n---\n"@;
    let p2 = "\n---\n\n请根据以下修改指令调整大纲：\n"@;
    lemma_carries(p0, a, t.skip((p0.len() + a.len()) as int), t);
    lemma_carries(p0 + a + p1, b, t.skip((p0.len() + a.len() + p1.len() + b.len()) as int), t);
    lemma_carries(
        p0 + a + p1 + b + p2,
        c,
        t.skip((p0.len() + a.len() + p1.len() + b.len() + p2.len() + c.len()) as int),
        t,
    );
    let t = change_style_text(a, b);
    let p0 = "以下是需要修改的文章全文：\n\n---\n"@;
    let p1 = "\n---\n\n请将以上文章改写为以下风格：\n\n---\n"@;
    lemma_carries(p0, a, t.skip((p0.len() + a.len()) as int), t);
    lemma_carries(p0 + a + p1, b, t.skip((p0.len() + a.len() + p1.len() + b.len()) as int), t);
}

} // verus!
