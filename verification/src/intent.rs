//! Intent parser: classifies a line of natural-language input into a
//! structured [`Intent`], given the current [`SessionState`].
//!
//! Pure string matching in two layers: state-independent high-confidence
//! patterns first, then state-dependent patterns.

use vstd::prelude::*;
use crate::text::{
    chars_eq, chars_of, contains_seq, contains_str, find_chars, first_index, is_whitespace, is_ws,
    last_index, lemma_first_index, lemma_last_index_upto, lemma_word_end, rfind_chars,
    slice_chars, starts_with, starts_with_chars, string_of, strip_leading, strip_leading_chars,
    trim, trim_chars, word_end, word_end_index, occurs_at, trim_start, trim_end,
};

verus! {

broadcast use vstd::string::group_string_axioms;

// ── SessionState ─────────────────────────────────────────────────────

/// The state of a multi-turn writing session.
#[derive(Debug, Clone, Copy, PartialEq, Eq, Structural)]
pub enum SessionState {
    /// Idle, waiting for the user to start something.
    Idle,
    /// Waiting for feedback on the outline.
    WaitingForOutline,
    /// Waiting for feedback on the full text.
    WaitingForFulltext,
    /// Waiting for the user to confirm publishing.
    WaitingForPublish,
}

// ── Intent ───────────────────────────────────────────────────────────

/// A structured intent parsed from user input.
#[derive(Debug, Clone)]
pub enum Intent {
    /// Write an article on a topic in a named style.
    Generate { topic: String, style_name: String },
    /// Learn a writing style from a URL.
    Learn { url: String },
    /// List all styles.
    ListStyles,
    /// Show one style.
    ShowStyle { name: String },
    /// Delete one style.
    DeleteStyle { name: String },
    /// Partially redraw a `.md` file.
    RefineFile { path: String, instruction: String },
    /// Rewrite a `.md` file as a whole.
    UpdateFile { path: String, instruction: String },
    /// Confirm the pending step.
    Confirm,
    /// Cancel the pending step.
    Cancel,
    /// Change the outline.
    ModifyOutline { instruction: String },
    /// Change a section of the full text.
    ModifySection { instruction: String },
    /// Switch to another style.
    ChangeStyle { style_name: String },
    /// Publish (WeChat + website).
    Publish,
    /// Publish to the website only.
    PublishWebsiteOnly,
    /// Keep the drafts and stop here.
    Hold,
    /// Not understood.
    Unknown,
}

/// The mathematical value of an [`Intent`]: its text fields as `Seq<char>`.
pub enum IntentModel {
    Generate { topic: Seq<char>, style_name: Seq<char> },
    Learn { url: Seq<char> },
    ListStyles,
    ShowStyle { name: Seq<char> },
    DeleteStyle { name: Seq<char> },
    RefineFile { path: Seq<char>, instruction: Seq<char> },
    UpdateFile { path: Seq<char>, instruction: Seq<char> },
    Confirm,
    Cancel,
    ModifyOutline { instruction: Seq<char> },
    ModifySection { instruction: Seq<char> },
    ChangeStyle { style_name: Seq<char> },
    Publish,
    PublishWebsiteOnly,
    Hold,
    Unknown,
}

impl View for Intent {
    type V = IntentModel;

    open spec fn view(&self) -> IntentModel {
        match self {
            Intent::Generate { topic, style_name } => IntentModel::Generate {
                topic: topic@,
                style_name: style_name@,
            },
            Intent::Learn { url } => IntentModel::Learn { url: url@ },
            Intent::ListStyles => IntentModel::ListStyles,
            Intent::ShowStyle { name } => IntentModel::ShowStyle { name: name@ },
            Intent::DeleteStyle { name } => IntentModel::DeleteStyle { name: name@ },
            Intent::RefineFile { path, instruction } => IntentModel::RefineFile {
                path: path@,
                instruction: instruction@,
            },
            Intent::UpdateFile { path, instruction } => IntentModel::UpdateFile {
                path: path@,
                instruction: instruction@,
            },
            Intent::Confirm => IntentModel::Confirm,
            Intent::Cancel => IntentModel::Cancel,
            Intent::ModifyOutline { instruction } => IntentModel::ModifyOutline {
                instruction: instruction@,
            },
            Intent::ModifySection { instruction } => IntentModel::ModifySection {
                instruction: instruction@,
            },
            Intent::ChangeStyle { style_name } => IntentModel::ChangeStyle {
                style_name: style_name@,
            },
            Intent::Publish => IntentModel::Publish,
            Intent::PublishWebsiteOnly => IntentModel::PublishWebsiteOnly,
            Intent::Hold => IntentModel::Hold,
            Intent::Unknown => IntentModel::Unknown,
        }
    }
}

// ── Lower-casing (std) ───────────────────────────────────────────────

/// The result of `str::to_lowercase` (Unicode lower-case mapping).
pub uninterp spec fn lowercase(s: Seq<char>) -> Seq<char>;

/// Whether every character of `s` is ASCII.
pub open spec fn all_ascii(s: Seq<char>) -> bool {
    forall|i: int| 0 <= i < s.len() ==> (#[trigger] s[i] as u32) < 128
}

/// The lower-case form of an ASCII character: `A`..`Z` become `a`..`z`,
/// every other character stays.
pub open spec fn ascii_lower_char(c: char) -> char {
    if 'A' <= c <= 'Z' {
        ((c as u32) + 32) as char
    } else {
        c
    }
}

/// `s` with its ASCII capitals lower-cased.
pub open spec fn ascii_lower(s: Seq<char>) -> Seq<char> {
    s.map_values(|c: char| ascii_lower_char(c))
}

/// Calls std `str::to_lowercase`; its result is named [`lowercase`].  Of
/// ASCII text, whose Unicode lower-case mapping std documents by example
/// (`"HELLO"` gives `"hello"`), the result is stated: the capitals `A`..`Z`
/// become `a`..`z` and every other character stays.
#[verifier::external_body]
fn to_lowercase_string(s: &str) -> (r: String)
    ensures
        r@ == lowercase(s@),
        all_ascii(s@) ==> r@ == ascii_lower(s@),
{
    s.to_lowercase()
}

// ── Specification ────────────────────────────────────────────────────

/// Whether `t` is a URL token (starts with a web scheme).
pub open spec fn is_url_token(t: Seq<char>) -> bool {
    starts_with(t, "https://"@) || starts_with(t, "http://"@)
}

/// Whether `t` names a Markdown file (contains `.md`).
pub open spec fn is_md_token(t: Seq<char>) -> bool {
    contains_seq(t, ".md"@)
}

/// Whether a token satisfies the predicate picked by `url` (URL or `.md`).
pub open spec fn token_matches(t: Seq<char>, url: bool) -> bool {
    if url {
        is_url_token(t)
    } else {
        is_md_token(t)
    }
}

/// The first whitespace-separated token of `s`, at or after `i`, that
/// satisfies the predicate picked by `url`.
pub open spec fn first_token_where(s: Seq<char>, i: int, url: bool) -> Option<Seq<char>>
    decreases s.len() - i,
{
    if i < 0 || i >= s.len() {
        None
    } else if is_ws(s[i]) {
        first_token_where(s, i + 1, url)
    } else {
        let e = word_end(s, i);
        proof {
            lemma_word_end(s, i);
        }
        if token_matches(s.subrange(i, e), url) {
            Some(s.subrange(i, e))
        } else {
            first_token_where(s, e, url)
        }
    }
}

/// The text from the first occurrence of `proto` up to the next whitespace.
pub open spec fn embedded_url(s: Seq<char>, proto: Seq<char>) -> Option<Seq<char>> {
    match first_index(s, proto) {
        Some(pos) => Some(s.skip(pos).take(word_end(s.skip(pos), 0))),
        None => None,
    }
}

/// The URL in `s`: the first whitespace-separated token that starts with
/// `https://` or `http://`; otherwise the text from the first embedded
/// `https://` (then `http://`) up to the next whitespace.
pub open spec fn url_in(s: Seq<char>) -> Option<Seq<char>> {
    match first_token_where(s, 0, true) {
        Some(t) => Some(t),
        None => match embedded_url(s, "https://"@) {
            Some(u) => Some(u),
            None => embedded_url(s, "http://"@),
        },
    }
}

/// The first whitespace-separated token containing `.md`.
pub open spec fn md_path_in(s: Seq<char>) -> Option<Seq<char>> {
    first_token_where(s, 0, false)
}

/// `s` contains `a` and `b`.
pub open spec fn has_both(s: Seq<char>, a: Seq<char>, b: Seq<char>) -> bool {
    contains_seq(s, a) && contains_seq(s, b)
}

/// Learning keywords ("学一下", or "分析"/"逆向" together with "文风").
pub open spec fn learn_keywords(s: Seq<char>) -> bool {
    contains_seq(s, "学一下"@) || has_both(s, "分析"@, "文风"@) || has_both(s, "逆向"@, "文风"@)
}

/// Asking for the style list.
pub open spec fn list_styles_words(s: Seq<char>) -> bool {
    has_both(s, "风格库"@, "有什么"@) || has_both(s, "有哪些"@, "风格"@) || has_both(
        s,
        "列出"@,
        "风格"@,
    )
}

/// Asking to see a style.
pub open spec fn show_style_words(s: Seq<char>) -> bool {
    has_both(s, "看看"@, "风格"@) || has_both(s, "风格"@, "详情"@) || has_both(s, "风格"@, "摘要"@)
}

/// Asking to delete a style.
pub open spec fn delete_style_words(s: Seq<char>) -> bool {
    has_both(s, "删掉"@, "风格"@) || has_both(s, "删除"@, "风格"@)
}

/// Chinese words of confirmation (exact match).
pub open spec fn confirm_zh(t: Seq<char>) -> bool {
    t == "没问题"@ || t == "继续"@ || t == "就这样"@ || t == "好"@ || t == "可以"@ || t == "行"@
        || t == "对"@ || t == "是的"@ || t == "嗯"@
}

/// English words of confirmation (compared after lower-casing).
pub open spec fn confirm_en(t: Seq<char>) -> bool {
    t == "ok"@ || t == "yes"@ || t == "y"@
}

/// Chinese words of cancellation (exact match).
pub open spec fn cancel_zh(t: Seq<char>) -> bool {
    t == "算了"@ || t == "取消"@ || t == "不写了"@ || t == "不要了"@ || t == "换一个"@ || t
        == "放弃"@
}

/// English words of cancellation (compared after lower-casing).
pub open spec fn cancel_en(t: Seq<char>) -> bool {
    t == "cancel"@ || t == "no"@ || t == "n"@
}

/// `s` is a confirmation: its trimmed text is a Chinese confirmation word,
/// or lower-cases to an English one.
pub open spec fn confirm_text(s: Seq<char>) -> bool {
    confirm_zh(trim(s)) || confirm_en(lowercase(trim(s)))
}

/// `s` is a cancellation: its trimmed text is a Chinese cancellation word,
/// or lower-cases to an English one.
pub open spec fn cancel_text(s: Seq<char>) -> bool {
    cancel_zh(trim(s)) || cancel_en(lowercase(trim(s)))
}

/// The keyword that opens a generate request, if any ("写一篇" before "选题").
pub open spec fn generate_keyword(text: Seq<char>) -> Option<Seq<char>> {
    if contains_seq(text, "写一篇"@) {
        Some("写一篇"@)
    } else if contains_seq(text, "选题"@) {
        Some("选题"@)
    } else {
        None
    }
}

/// `(topic, style_name)` of "写一篇/选题 <topic> 用 <style> 风格" in `text`:
/// after the first keyword, the style ends at the first "风格" and starts
/// after the last "用" before it; both parts trimmed and non-empty.
pub open spec fn generate_parts(text: Seq<char>) -> Option<(Seq<char>, Seq<char>)> {
    match generate_keyword(text) {
        None => None,
        Some(kw) => if !contains_seq(text, "用"@) || !contains_seq(text, "风格"@) {
            None
        } else {
            match first_index(text, kw) {
                None => None,
                Some(kp) => {
                    let after = text.skip(kp + kw.len());
                    match first_index(after, "风格"@) {
                        None => None,
                        Some(fp) => match last_index(after.take(fp), "用"@) {
                            None => None,
                            Some(yp) => {
                                let topic = trim(after.take(yp));
                                let style = trim(after.subrange(yp + "用"@.len(), fp));
                                if topic.len() == 0 || style.len() == 0 {
                                    None
                                } else {
                                    Some((topic, style))
                                }
                            },
                        },
                    }
                },
            }
        },
    }
}

/// The text before the first blank line (`"\n\n"`), or all of it.
pub open spec fn first_paragraph(s: Seq<char>) -> Seq<char> {
    match first_index(s, "\n\n"@) {
        Some(i) => s.take(i),
        None => s,
    }
}

/// Generate parts from the first paragraph, falling back to the whole text.
pub open spec fn generate_request(s: Seq<char>) -> Option<(Seq<char>, Seq<char>)> {
    match generate_parts(first_paragraph(s)) {
        Some(r) => Some(r),
        None => generate_parts(s),
    }
}

/// `(path, instruction)` of "重写 <path.md> 改成 <instruction>".
pub open spec fn update_request(s: Seq<char>) -> Option<(Seq<char>, Seq<char>)> {
    if !(contains_seq(s, "重写"@) && contains_seq(s, ".md"@) && contains_seq(s, "改成"@)) {
        None
    } else {
        match md_path_in(s) {
            None => None,
            Some(path) => match first_index(s, "改成"@) {
                None => None,
                Some(g) => {
                    let ins = trim(s.skip(g + "改成"@.len()));
                    if ins.len() == 0 {
                        None
                    } else {
                        Some((path, ins))
                    }
                },
            },
        }
    }
}

/// `(path, instruction)` of "<path.md> 改 <instruction>" when it is not an
/// update request: the instruction is what follows the path, trimmed, with
/// leading "改" removed and trimmed again.
pub open spec fn refine_request(s: Seq<char>) -> Option<(Seq<char>, Seq<char>)> {
    if !(contains_seq(s, ".md"@) && contains_seq(s, "改"@)) {
        None
    } else if contains_seq(s, "重写"@) && contains_seq(s, "改成"@) {
        None
    } else {
        match md_path_in(s) {
            None => None,
            Some(path) => match first_index(s, path) {
                None => None,
                Some(pp) => {
                    let after = trim(s.skip(pp + path.len()));
                    let ins = trim(strip_leading(after, '改'));
                    if ins.len() == 0 {
                        None
                    } else {
                        Some((path, ins))
                    }
                },
            },
        }
    }
}

/// The trimmed text after the last `prefix` in `before`, if non-empty.
pub open spec fn name_after(before: Seq<char>, prefix: Seq<char>) -> Option<Seq<char>> {
    match last_index(before, prefix) {
        Some(p) => {
            let n = trim(before.skip(p + prefix.len()));
            if n.len() > 0 {
                Some(n)
            } else {
                None
            }
        },
        None => None,
    }
}

/// The first of `a`, `b` that is present.
pub open spec fn or_else(a: Option<Seq<char>>, b: Option<Seq<char>>) -> Option<Seq<char>> {
    if a is Some {
        a
    } else {
        b
    }
}

/// The style name in `s`: what follows "改风格"; else, before the first
/// "风格", what follows the last of the verbs 看看/删掉/删除/整体/换成 (in
/// that order of preference); else all text before "风格"; each trimmed and
/// non-empty.
pub open spec fn style_name_in(s: Seq<char>) -> Option<Seq<char>> {
    let after_gai = match first_index(s, "改风格"@) {
        Some(p) => {
            let n = trim(s.skip(p + "改风格"@.len()));
            if n.len() > 0 {
                Some(n)
            } else {
                None
            }
        },
        None => None,
    };
    if after_gai is Some {
        after_gai
    } else {
        match first_index(s, "风格"@) {
            None => None,
            Some(fp) => {
                let before = s.take(fp);
                let bt = trim(before);
                or_else(
                    name_after(before, "看看"@),
                    or_else(
                        name_after(before, "删掉"@),
                        or_else(
                            name_after(before, "删除"@),
                            or_else(
                                name_after(before, "整体"@),
                                or_else(
                                    name_after(before, "换成"@),
                                    if bt.len() > 0 {
                                        Some(bt)
                                    } else {
                                        None
                                    },
                                ),
                            ),
                        ),
                    ),
                )
            },
        }
    }
}

/// Intent while waiting to publish: the website-only words first, then the
/// words that keep the drafts, then the publish words.
pub open spec fn publish_intent(s: Seq<char>) -> IntentModel {
    if contains_seq(s, "只发网站"@) || contains_seq(s, "只部署网站"@) || contains_seq(s, "网站发布"@) {
        IntentModel::PublishWebsiteOnly
    } else if hold_words(s) {
        IntentModel::Hold
    } else if contains_seq(s, "发布"@) || contains_seq(s, "推"@) || contains_seq(s, "上线"@)
        || contains_seq(s, "发"@) {
        IntentModel::Publish
    } else {
        IntentModel::Unknown
    }
}

/// Words that keep the drafts for now ("等一下", "先不", "看看", ...); they
/// win over the publish words, so "先不发" keeps the drafts.
pub open spec fn hold_words(s: Seq<char>) -> bool {
    contains_seq(s, "等一下"@) || contains_seq(s, "再看看"@) || contains_seq(s, "看看"@)
        || contains_seq(s, "先不"@) || contains_seq(s, "等等"@) || contains_seq(s, "hold"@)
}

/// Whether `s` asks to change the style of the full text.
pub open spec fn change_style_words(s: Seq<char>) -> bool {
    has_both(s, "整体"@, "风格"@) || has_both(s, "换成"@, "风格"@) || contains_seq(s, "改风格"@)
}

/// Intent while waiting for feedback on the full text.
pub open spec fn fulltext_intent(s: Seq<char>) -> IntentModel {
    if change_style_words(s) && style_name_in(s) is Some {
        IntentModel::ChangeStyle { style_name: style_name_in(s)->0 }
    } else {
        IntentModel::ModifySection { instruction: s }
    }
}

/// Layer 1 of the parser: state-independent patterns, on trimmed input `t`.
pub open spec fn layer1_intent(t: Seq<char>) -> Option<IntentModel> {
    if url_in(t) is Some {
        Some(IntentModel::Learn { url: url_in(t)->0 })
    } else if list_styles_words(t) {
        Some(IntentModel::ListStyles)
    } else if show_style_words(t) && style_name_in(t) is Some {
        Some(IntentModel::ShowStyle { name: style_name_in(t)->0 })
    } else if delete_style_words(t) && style_name_in(t) is Some {
        Some(IntentModel::DeleteStyle { name: style_name_in(t)->0 })
    } else if generate_request(t) is Some {
        let (topic, style_name) = generate_request(t)->0;
        Some(IntentModel::Generate { topic, style_name })
    } else if update_request(t) is Some {
        let (path, instruction) = update_request(t)->0;
        Some(IntentModel::UpdateFile { path, instruction })
    } else if refine_request(t) is Some {
        let (path, instruction) = refine_request(t)->0;
        Some(IntentModel::RefineFile { path, instruction })
    } else {
        None
    }
}

/// The intent of input `s` in state `state`.
pub open spec fn intent_of(s: Seq<char>, state: SessionState) -> IntentModel {
    let t = trim(s);
    if t.len() == 0 {
        IntentModel::Unknown
    } else if layer1_intent(t) is Some {
        layer1_intent(t)->0
    } else if state == SessionState::Idle {
        IntentModel::Unknown
    } else if confirm_text(t) {
        IntentModel::Confirm
    } else if cancel_text(t) {
        IntentModel::Cancel
    } else {
        match state {
            SessionState::WaitingForPublish => publish_intent(t),
            SessionState::WaitingForOutline => IntentModel::ModifyOutline { instruction: t },
            SessionState::WaitingForFulltext => fulltext_intent(t),
            SessionState::Idle => IntentModel::Unknown,
        }
    }
}


// ── Views of results ─────────────────────────────────────────────────

/// The view of an optional string.
pub open spec fn opt_view(o: Option<String>) -> Option<Seq<char>> {
    match o {
        Some(s) => Some(s@),
        None => None,
    }
}

/// The view of an optional pair of strings.
pub open spec fn pair_view(o: Option<(String, String)>) -> Option<(Seq<char>, Seq<char>)> {
    match o {
        Some((a, b)) => Some((a@, b@)),
        None => None,
    }
}

/// The view of an optional character vector.
pub open spec fn opt_vec_view(o: Option<Vec<char>>) -> Option<Seq<char>> {
    match o {
        Some(v) => Some(v@),
        None => None,
    }
}

// ── Token helpers ────────────────────────────────────────────────────

fn token_ok(t: &[char], url: bool) -> (r: bool)
    ensures
        r == token_matches(t@, url),
{
    if url {
        let https = chars_of("https://");
        let http = chars_of("http://");
        starts_with_chars(t, https.as_slice()) || starts_with_chars(t, http.as_slice())
    } else {
        contains_str(t, ".md")
    }
}

/// The first whitespace-separated token of `s` satisfying the predicate
/// picked by `url`.
fn first_token(s: &[char], url: bool) -> (r: Option<Vec<char>>)
    ensures
        opt_vec_view(r) == first_token_where(s@, 0, url),
{
    let mut i: usize = 0;
    loop
        invariant
            i <= s@.len(),
            first_token_where(s@, 0, url) == first_token_where(s@, i as int, url),
        decreases s.len() - i,
    {
        if i >= s.len() {
            return None;
        }
        if is_whitespace(s[i]) {
            i += 1;
        } else {
            let e = word_end_index(s, i);
            proof {
                lemma_word_end(s@, i as int);
            }
            let t = slice_chars(s, i, e);
            if token_ok(t.as_slice(), url) {
                return Some(t);
            }
            i = e;
        }
    }
}

/// The text from the first `proto` in `s` up to the next whitespace.
fn embedded(s: &[char], proto: &str) -> (r: Option<Vec<char>>)
    ensures
        opt_vec_view(r) == embedded_url(s@, proto@),
{
    let p = chars_of(proto);
    match find_chars(s, p.as_slice()) {
        Some(pos) => {
            proof {
                lemma_first_index(s@, p@);
            }
            let rest = slice_chars(s, pos, s.len());
            assert(rest@ == s@.skip(pos as int));
            let e = word_end_index(rest.as_slice(), 0);
            let u = slice_chars(rest.as_slice(), 0, e);
            assert(u@ == rest@.take(e as int));
            Some(u)
        },
        None => None,
    }
}

// ── Layer 1 pattern checks ───────────────────────────────────────────

/// Whether the input carries "learn a style" keywords.
pub fn has_learn_keywords(input: &str) -> (r: bool)
    ensures
        r == learn_keywords(input@),
{
    let s = chars_of(input);
    let s = s.as_slice();
    contains_str(s, "学一下") || (contains_str(s, "分析") && contains_str(s, "文风")) || (
    contains_str(s, "逆向") && contains_str(s, "文风"))
}

/// Whether the input asks for the style list.
pub fn matches_list_styles(input: &str) -> (r: bool)
    ensures
        r == list_styles_words(input@),
{
    let s = chars_of(input);
    let s = s.as_slice();
    (contains_str(s, "风格库") && contains_str(s, "有什么")) || (contains_str(s, "有哪些")
        && contains_str(s, "风格")) || (contains_str(s, "列出") && contains_str(s, "风格"))
}

/// Whether the input asks to see a style.
pub fn matches_show_style(input: &str) -> (r: bool)
    ensures
        r == show_style_words(input@),
{
    let s = chars_of(input);
    let s = s.as_slice();
    (contains_str(s, "看看") && contains_str(s, "风格")) || (contains_str(s, "风格")
        && contains_str(s, "详情")) || (contains_str(s, "风格") && contains_str(s, "摘要"))
}

/// Whether the input asks to delete a style.
pub fn matches_delete_style(input: &str) -> (r: bool)
    ensures
        r == delete_style_words(input@),
{
    let s = chars_of(input);
    let s = s.as_slice();
    (contains_str(s, "删掉") && contains_str(s, "风格")) || (contains_str(s, "删除")
        && contains_str(s, "风格"))
}

// ── Layer 1 extraction ───────────────────────────────────────────────

/// The first URL of the input: a whitespace-separated token starting with
/// `https://` or `http://`, else an embedded URL up to the next whitespace.
pub fn extract_url(input: &str) -> (r: Option<String>)
    ensures
        opt_view(r) == url_in(input@),
{
    let s = chars_of(input);
    if let Some(t) = first_token(s.as_slice(), true) {
        return Some(string_of(t.as_slice()));
    }
    if let Some(u) = embedded(s.as_slice(), "https://") {
        return Some(string_of(u.as_slice()));
    }
    if let Some(u) = embedded(s.as_slice(), "http://") {
        return Some(string_of(u.as_slice()));
    }
    None
}

/// Whether the (trimmed) input is a confirmation word; English words are
/// compared case-insensitively.
pub fn is_confirm(input: &str) -> (r: bool)
    ensures
        r == confirm_text(input@),
        all_ascii(trim(input@)) ==> r == confirm_en(ascii_lower(trim(input@))),
{
    proof {
        lemma_chinese_words_not_ascii(trim(input@));
    }
    let t = trim_chars(chars_of(input).as_slice());
    let t = t.as_slice();
    if eq_lit(t, "没问题") || eq_lit(t, "继续") || eq_lit(t, "就这样") || eq_lit(t, "好") || eq_lit(
        t,
        "可以",
    ) || eq_lit(t, "行") || eq_lit(t, "对") || eq_lit(t, "是的") || eq_lit(t, "嗯") {
        return true;
    }
    let ts = string_of(t);
    is_english_confirm(to_lowercase_string(ts.as_str()).as_str())
}

/// Whether lower-cased text is an English confirmation word.
pub fn is_english_confirm(lowered: &str) -> (r: bool)
    ensures
        r == confirm_en(lowered@),
{
    let lower = chars_of(lowered);
    let l = lower.as_slice();
    eq_lit(l, "ok") || eq_lit(l, "yes") || eq_lit(l, "y")
}

/// Whether lower-cased text is an English cancellation word.
pub fn is_english_cancel(lowered: &str) -> (r: bool)
    ensures
        r == cancel_en(lowered@),
{
    let lower = chars_of(lowered);
    let l = lower.as_slice();
    eq_lit(l, "cancel") || eq_lit(l, "no") || eq_lit(l, "n")
}

/// Whether the (trimmed) input is a cancellation word; English words are
/// compared case-insensitively.
pub fn is_cancel(input: &str) -> (r: bool)
    ensures
        r == cancel_text(input@),
        all_ascii(trim(input@)) ==> r == cancel_en(ascii_lower(trim(input@))),
{
    proof {
        lemma_chinese_words_not_ascii(trim(input@));
    }
    let t = trim_chars(chars_of(input).as_slice());
    let t = t.as_slice();
    if eq_lit(t, "算了") || eq_lit(t, "取消") || eq_lit(t, "不写了") || eq_lit(t, "不要了") || eq_lit(
        t,
        "换一个",
    ) || eq_lit(t, "放弃") {
        return true;
    }
    let ts = string_of(t);
    is_english_cancel(to_lowercase_string(ts.as_str()).as_str())
}

fn eq_lit(s: &[char], lit: &str) -> (r: bool)
    ensures
        r == (s@ == lit@),
{
    let l = chars_of(lit);
    chars_eq(s, l.as_slice())
}

/// `(topic, style_name)` of a generate request, looked for in the first
/// paragraph and then in the whole input.
pub fn extract_generate(input: &str) -> (r: Option<(String, String)>)
    ensures
        pair_view(r) == generate_request(input@),
{
    let s = chars_of(input);
    let sep = chars_of("\n\n");
    let first = match find_chars(s.as_slice(), sep.as_slice()) {
        Some(i) => {
            proof {
                lemma_first_index(s@, sep@);
            }
            slice_chars(s.as_slice(), 0, i)
        },
        None => slice_chars(s.as_slice(), 0, s.len()),
    };
    assert(first@ == first_paragraph(input@));
    let first_str = string_of(first.as_slice());
    if let Some(result) = try_extract(first_str.as_str()) {
        return Some(result);
    }
    try_extract(input)
}

/// `(topic, style_name)` of "写一篇/选题 <topic> 用 <style> 风格" in `text`.
pub fn try_extract(text: &str) -> (r: Option<(String, String)>)
    ensures
        pair_view(r) == generate_parts(text@),
{
    let t = chars_of(text);
    let t = t.as_slice();
    let kw = if contains_str(t, "写一篇") {
        chars_of("写一篇")
    } else if contains_str(t, "选题") {
        chars_of("选题")
    } else {
        return None;
    };
    if !contains_str(t, "用") || !contains_str(t, "风格") {
        return None;
    }
    let kp = match find_chars(t, kw.as_slice()) {
        Some(k) => k,
        None => return None,
    };
    proof {
        lemma_first_index(t@, kw@);
    }
    let n = t.len();
    assert(kp + kw@.len() <= n);
    let after = slice_chars(t, kp + kw.len(), t.len());
    assert(after@ == t@.skip(kp + kw@.len()));
    let fengge = chars_of("风格");
    let fp = match find_chars(after.as_slice(), fengge.as_slice()) {
        Some(f) => f,
        None => return None,
    };
    proof {
        lemma_first_index(after@, fengge@);
    }
    let before = slice_chars(after.as_slice(), 0, fp);
    assert(before@ == after@.take(fp as int));
    let yong = chars_of("用");
    let yp = match rfind_chars(before.as_slice(), yong.as_slice()) {
        Some(y) => y,
        None => return None,
    };
    proof {
        lemma_last_index_upto(before@, yong@, before@.len() - yong@.len());
    }
    let topic = trim_chars(slice_chars(after.as_slice(), 0, yp).as_slice());
    assert(after@.subrange(0, yp as int) == after@.take(yp as int));
    let style = trim_chars(slice_chars(after.as_slice(), yp + yong.len(), fp).as_slice());
    if topic.len() == 0 || style.len() == 0 {
        return None;
    }
    Some((string_of(topic.as_slice()), string_of(style.as_slice())))
}

/// `(path, instruction)` of "重写 <path.md> 改成 <instruction>".
pub fn extract_update(input: &str) -> (r: Option<(String, String)>)
    ensures
        pair_view(r) == update_request(input@),
{
    let s = chars_of(input);
    let s = s.as_slice();
    if !contains_str(s, "重写") || !contains_str(s, ".md") || !contains_str(s, "改成") {
        return None;
    }
    let path = match first_token(s, false) {
        Some(p) => p,
        None => return None,
    };
    let gaicheng = chars_of("改成");
    let g = match find_chars(s, gaicheng.as_slice()) {
        Some(g) => g,
        None => return None,
    };
    proof {
        lemma_first_index(s@, gaicheng@);
    }
    let n = s.len();
    assert(g + gaicheng@.len() <= n);
    let rest = slice_chars(s, g + gaicheng.len(), s.len());
    assert(rest@ == s@.skip(g + gaicheng@.len()));
    let instruction = trim_chars(rest.as_slice());
    if instruction.len() == 0 {
        return None;
    }
    Some((string_of(path.as_slice()), string_of(instruction.as_slice())))
}

/// `(path, instruction)` of "<path.md> 改 <instruction>" (not an update
/// request).
pub fn extract_refine(input: &str) -> (r: Option<(String, String)>)
    ensures
        pair_view(r) == refine_request(input@),
{
    let s = chars_of(input);
    let s = s.as_slice();
    if !contains_str(s, ".md") || !contains_str(s, "改") {
        return None;
    }
    if contains_str(s, "重写") && contains_str(s, "改成") {
        return None;
    }
    let path = match first_token(s, false) {
        Some(p) => p,
        None => return None,
    };
    let pp = match find_chars(s, path.as_slice()) {
        Some(p) => p,
        None => return None,
    };
    proof {
        lemma_first_index(s@, path@);
    }
    let n = s.len();
    assert(pp + path@.len() <= n);
    let rest = slice_chars(s, pp + path.len(), s.len());
    assert(rest@ == s@.skip(pp + path@.len()));
    let after = trim_chars(rest.as_slice());
    let stripped = strip_leading_chars(after.as_slice(), '改');
    let instruction = trim_chars(stripped.as_slice());
    if instruction.len() == 0 {
        return None;
    }
    Some((string_of(path.as_slice()), string_of(instruction.as_slice())))
}

/// The trimmed text after the last `prefix` in `before`, if non-empty.
fn name_after_prefix(before: &[char], prefix: &str) -> (r: Option<Vec<char>>)
    ensures
        opt_vec_view(r) == name_after(before@, prefix@),
{
    let p = chars_of(prefix);
    match rfind_chars(before, p.as_slice()) {
        Some(pos) => {
            proof {
                lemma_last_index_upto(before@, p@, before@.len() - p@.len());
            }
            let n = before.len();
            assert(pos + p@.len() <= n);
            let rest = slice_chars(before, pos + p.len(), before.len());
            assert(rest@ == before@.skip(pos + p@.len()));
            let n = trim_chars(rest.as_slice());
            if n.len() > 0 {
                Some(n)
            } else {
                None
            }
        },
        None => None,
    }
}

/// The style name in the input (see [`style_name_in`]).
pub fn extract_style_name(input: &str) -> (r: Option<String>)
    ensures
        opt_view(r) == style_name_in(input@),
{
    let s = chars_of(input);
    let s = s.as_slice();
    let gai = chars_of("改风格");
    if let Some(pos) = find_chars(s, gai.as_slice()) {
        proof {
            lemma_first_index(s@, gai@);
        }
        let n = s.len();
        assert(pos + gai@.len() <= n);
        let rest = slice_chars(s, pos + gai.len(), s.len());
        assert(rest@ == s@.skip(pos + gai@.len()));
        let name = trim_chars(rest.as_slice());
        if name.len() > 0 {
            return Some(string_of(name.as_slice()));
        }
    }
    let fengge = chars_of("风格");
    let fp = match find_chars(s, fengge.as_slice()) {
        Some(f) => f,
        None => return None,
    };
    proof {
        lemma_first_index(s@, fengge@);
    }
    let before = slice_chars(s, 0, fp);
    assert(before@ == s@.take(fp as int));
    let b = before.as_slice();
    if let Some(n) = name_after_prefix(b, "看看") {
        return Some(string_of(n.as_slice()));
    }
    if let Some(n) = name_after_prefix(b, "删掉") {
        return Some(string_of(n.as_slice()));
    }
    if let Some(n) = name_after_prefix(b, "删除") {
        return Some(string_of(n.as_slice()));
    }
    if let Some(n) = name_after_prefix(b, "整体") {
        return Some(string_of(n.as_slice()));
    }
    if let Some(n) = name_after_prefix(b, "换成") {
        return Some(string_of(n.as_slice()));
    }
    let bt = trim_chars(b);
    if bt.len() > 0 {
        return Some(string_of(bt.as_slice()));
    }
    None
}

/// The first whitespace-separated token containing `.md`.
pub fn extract_md_path(input: &str) -> (r: Option<String>)
    ensures
        opt_view(r) == md_path_in(input@),
{
    let s = chars_of(input);
    match first_token(s.as_slice(), false) {
        Some(t) => Some(string_of(t.as_slice())),
        None => None,
    }
}

// ── Layer 2 ──────────────────────────────────────────────────────────

/// The intent of input while waiting to publish.
pub fn match_publish_intent(input: &str) -> (r: Intent)
    ensures
        r@ == publish_intent(input@),
{
    let s = chars_of(input);
    let s = s.as_slice();
    if contains_str(s, "只发网站") || contains_str(s, "只部署网站") || contains_str(s, "网站发布") {
        return Intent::PublishWebsiteOnly;
    }
    if contains_str(s, "等一下") || contains_str(s, "再看看") || contains_str(s, "看看")
        || contains_str(s, "先不") || contains_str(s, "等等") || contains_str(s, "hold") {
        return Intent::Hold;
    }
    if contains_str(s, "发布") || contains_str(s, "推") || contains_str(s, "上线") || contains_str(
        s,
        "发",
    ) {
        return Intent::Publish;
    }
    Intent::Unknown
}

/// The intent of input while waiting for feedback on the full text.
pub fn match_fulltext_intent(input: &str) -> (r: Intent)
    ensures
        r@ == fulltext_intent(input@),
{
    let s = chars_of(input);
    let s = s.as_slice();
    if (contains_str(s, "整体") && contains_str(s, "风格")) || (contains_str(s, "换成")
        && contains_str(s, "风格")) || contains_str(s, "改风格") {
        if let Some(style_name) = extract_style_name(input) {
            return Intent::ChangeStyle { style_name };
        }
    }
    Intent::ModifySection { instruction: input.to_owned() }
}

// ── Public API ───────────────────────────────────────────────────────

/// Parses user input into an [`Intent`], given the session state: first the
/// state-independent patterns (URL, style list/show/delete, generate,
/// update, refine), then — outside `Idle` — confirmation, cancellation and
/// the patterns of the current state.
pub fn parse_intent(input: &str, state: &SessionState) -> (r: Intent)
    ensures
        r@ == intent_of(input@, *state),
{
    let t = trim_chars(chars_of(input).as_slice());
    if t.len() == 0 {
        return Intent::Unknown;
    }
    let ts = string_of(t.as_slice());
    let input = ts.as_str();
    // 1. URL
    if let Some(url) = extract_url(input) {
        return Intent::Learn { url };
    }
    // 2. learning keywords together with a URL
    if has_learn_keywords(input) && (contains_str(t.as_slice(), "http://") || contains_str(
        t.as_slice(),
        "https://",
    )) {
        if let Some(url) = extract_url(input) {
            return Intent::Learn { url };
        }
    }
    // 3. list styles
    if matches_list_styles(input) {
        return Intent::ListStyles;
    }
    // 4. show a style
    if matches_show_style(input) {
        if let Some(name) = extract_style_name(input) {
            return Intent::ShowStyle { name };
        }
    }
    // 5. delete a style
    if matches_delete_style(input) {
        if let Some(name) = extract_style_name(input) {
            return Intent::DeleteStyle { name };
        }
    }
    // 6. generate
    if let Some((topic, style_name)) = extract_generate(input) {
        return Intent::Generate { topic, style_name };
    }
    // 7. update a file
    if let Some((path, instruction)) = extract_update(input) {
        return Intent::UpdateFile { path, instruction };
    }
    // 8. refine a file
    if let Some((path, instruction)) = extract_refine(input) {
        return Intent::RefineFile { path, instruction };
    }
    // Layer 2
    if let SessionState::Idle = state {
        return Intent::Unknown;
    }
    if is_confirm(input) {
        return Intent::Confirm;
    }
    if is_cancel(input) {
        return Intent::Cancel;
    }
    match state {
        SessionState::WaitingForPublish => match_publish_intent(input),
        SessionState::WaitingForOutline => Intent::ModifyOutline { instruction: input.to_owned() },
        SessionState::WaitingForFulltext => match_fulltext_intent(input),
        SessionState::Idle => Intent::Unknown,
    }
}


// ── Laws of the parser ───────────────────────────────────────────────

/// Blank input is never understood, whatever the state.
pub proof fn law_blank_input_is_unknown(s: Seq<char>, state: SessionState)
    requires
        trim(s).len() == 0,
    ensures
        intent_of(s, state) == IntentModel::Unknown,
{
}

/// The stand-alone requests (a URL to learn from, the style library,
/// generating an article, rewriting or redrawing a file) are recognised in
/// the same way in every state.
pub proof fn law_standalone_requests_ignore_state(
    s: Seq<char>,
    state1: SessionState,
    state2: SessionState,
)
    requires
        layer1_intent(trim(s)) is Some,
    ensures
        intent_of(s, state1) == intent_of(s, state2),
        trim(s).len() > 0 ==> intent_of(s, state1) == layer1_intent(trim(s))->0,
{
}

/// When idle, input is a stand-alone request or is not understood: the
/// workflow answers (confirm, cancel, revise, publish, hold) need an
/// article in progress.
pub proof fn law_idle_understands_only_standalone(s: Seq<char>)
    ensures
        intent_of(s, SessionState::Idle) == IntentModel::Unknown || Some(
            intent_of(s, SessionState::Idle),
        ) == layer1_intent(trim(s)),
{
}

/// While an article is in progress, confirmation and cancellation words
/// are recognised in every waiting state (unless the input is a stand-alone
/// request), confirmation first.
pub proof fn law_confirm_cancel_in_waiting_states(s: Seq<char>, state: SessionState)
    requires
        state != SessionState::Idle,
        trim(s).len() > 0,
        layer1_intent(trim(s)) is None,
    ensures
        confirm_text(trim(s)) ==> intent_of(s, state) == IntentModel::Confirm,
        !confirm_text(trim(s)) && cancel_text(trim(s)) ==> intent_of(s, state)
            == IntentModel::Cancel,
{
}


/// The answers while an article is in progress, for input that is neither
/// a stand-alone request nor a confirmation or cancellation: waiting for
/// feedback on the outline, the input, trimmed, is the instruction to
/// revise it; waiting for feedback on the full text, input that does not
/// ask for another style is the instruction to redraw a section; waiting to
/// publish, the website-only words publish to the website only, the words
/// that keep the drafts keep them, the publish words publish, and anything
/// else is not understood.
pub proof fn law_answers_while_waiting(s: Seq<char>)
    requires
        trim(s).len() > 0,
        layer1_intent(trim(s)) is None,
        !confirm_text(trim(s)),
        !cancel_text(trim(s)),
    ensures
        intent_of(s, SessionState::WaitingForOutline) == (IntentModel::ModifyOutline {
            instruction: trim(s),
        }),
        !contains_seq(trim(s), "整体"@) && !contains_seq(trim(s), "换成"@) && !contains_seq(
            trim(s),
            "改风格"@,
        ) ==> intent_of(s, SessionState::WaitingForFulltext) == (IntentModel::ModifySection {
            instruction: trim(s),
        }),
        contains_seq(trim(s), "只发网站"@) ==> intent_of(s, SessionState::WaitingForPublish)
            == IntentModel::PublishWebsiteOnly,
        !contains_seq(trim(s), "只发网站"@) && !contains_seq(trim(s), "只部署网站"@)
            && !contains_seq(trim(s), "网站发布"@) && contains_seq(trim(s), "先不"@) ==> intent_of(
            s,
            SessionState::WaitingForPublish,
        ) == IntentModel::Hold,
        !contains_seq(trim(s), "只发网站"@) && !contains_seq(trim(s), "只部署网站"@)
            && !contains_seq(trim(s), "网站发布"@) && !hold_words(trim(s)) && contains_seq(
            trim(s),
            "发布"@,
        ) ==> intent_of(s, SessionState::WaitingForPublish) == IntentModel::Publish,
        !contains_seq(trim(s), "只发网站"@) && !contains_seq(trim(s), "只部署网站"@)
            && !contains_seq(trim(s), "网站发布"@) && !hold_words(trim(s)) && !contains_seq(
            trim(s),
            "发布"@,
        ) && !contains_seq(trim(s), "推"@) && !contains_seq(trim(s), "上线"@) && !contains_seq(
            trim(s),
            "发"@,
        ) ==> intent_of(s, SessionState::WaitingForPublish) == IntentModel::Unknown,
        intent_of(s, SessionState::Idle) == IntentModel::Unknown,
{
}

/// While waiting to publish, a word that keeps the drafts wins over a
/// publish word: "先不发" keeps the drafts.
pub proof fn law_hold_words_win(s: Seq<char>)
    requires
        hold_words(s),
        !contains_seq(s, "只发网站"@),
        !contains_seq(s, "只部署网站"@),
        !contains_seq(s, "网站发布"@),
    ensures
        publish_intent(s) == IntentModel::Hold,
{
}


/// The Chinese confirmation and cancellation words are not ASCII.
proof fn lemma_chinese_words_not_ascii(t: Seq<char>)
    ensures
        all_ascii(t) ==> !confirm_zh(t) && !cancel_zh(t),
{
    reveal_strlit("没问题");
    reveal_strlit("继续");
    reveal_strlit("就这样");
    reveal_strlit("好");
    reveal_strlit("可以");
    reveal_strlit("行");
    reveal_strlit("对");
    reveal_strlit("是的");
    reveal_strlit("嗯");
    reveal_strlit("算了");
    reveal_strlit("取消");
    reveal_strlit("不写了");
    reveal_strlit("不要了");
    reveal_strlit("换一个");
    reveal_strlit("放弃");
    if all_ascii(t) && t.len() > 0 {
        assert((t[0] as u32) < 128);
    }
}

proof fn lemma_english_words_disjoint(l: Seq<char>)
    ensures
        !(confirm_en(l) && cancel_en(l)),
{
    reveal_strlit("ok");
    reveal_strlit("yes");
    reveal_strlit("y");
    reveal_strlit("cancel");
    reveal_strlit("no");
    reveal_strlit("n");
    if l == "ok"@ {
        assert(l.len() == 2 && l[0] == 'o');
    }
    if l == "yes"@ {
        assert(l.len() == 3 && l[0] == 'y');
    }
    if l == "y"@ {
        assert(l.len() == 1 && l[0] == 'y');
    }
    if l == "cancel"@ {
        assert(l.len() == 6 && l[0] == 'c');
    }
    if l == "no"@ {
        assert(l.len() == 2 && l[0] == 'n');
    }
    if l == "n"@ {
        assert(l.len() == 1 && l[0] == 'n');
    }
}

/// A confirmation is never a cancellation when the words are compared on
/// their own: the Chinese lists share no word, and neither do the English
/// ones; so for ASCII input, confirming and cancelling exclude each other.
pub proof fn law_confirm_excludes_cancel(t: Seq<char>)
    ensures
        !(confirm_zh(t) && cancel_zh(t)),
        !(confirm_en(t) && cancel_en(t)),
        all_ascii(trim(t)) ==> !(confirm_en(ascii_lower(trim(t))) && cancel_en(
            ascii_lower(trim(t)),
        )),
{
    reveal_strlit("没问题");
    reveal_strlit("继续");
    reveal_strlit("就这样");
    reveal_strlit("好");
    reveal_strlit("可以");
    reveal_strlit("行");
    reveal_strlit("对");
    reveal_strlit("是的");
    reveal_strlit("嗯");
    reveal_strlit("算了");
    reveal_strlit("取消");
    reveal_strlit("不写了");
    reveal_strlit("不要了");
    reveal_strlit("换一个");
    reveal_strlit("放弃");
    if t == "没问题"@ {
        assert(t.len() == 3 && t[0] == '没');
    }
    if t == "继续"@ {
        assert(t.len() == 2 && t[0] == '继');
    }
    if t == "就这样"@ {
        assert(t.len() == 3 && t[0] == '就');
    }
    if t == "好"@ {
        assert(t.len() == 1 && t[0] == '好');
    }
    if t == "可以"@ {
        assert(t.len() == 2 && t[0] == '可');
    }
    if t == "行"@ {
        assert(t.len() == 1 && t[0] == '行');
    }
    if t == "对"@ {
        assert(t.len() == 1 && t[0] == '对');
    }
    if t == "是的"@ {
        assert(t.len() == 2 && t[0] == '是');
    }
    if t == "嗯"@ {
        assert(t.len() == 1 && t[0] == '嗯');
    }
    if t == "算了"@ {
        assert(t.len() == 2 && t[0] == '算');
    }
    if t == "取消"@ {
        assert(t.len() == 2 && t[0] == '取');
    }
    if t == "不写了"@ {
        assert(t.len() == 3 && t[0] == '不');
    }
    if t == "不要了"@ {
        assert(t.len() == 3 && t[0] == '不');
    }
    if t == "换一个"@ {
        assert(t.len() == 3 && t[0] == '换');
    }
    if t == "放弃"@ {
        assert(t.len() == 2 && t[0] == '放');
    }
    lemma_english_words_disjoint(t);
    lemma_english_words_disjoint(ascii_lower(trim(t)));
}


// ── Law of URL extraction ────────────────────────────────────────────

/// Whether `u` holds no whitespace.
pub open spec fn no_whitespace(u: Seq<char>) -> bool {
    forall|i: int| 0 <= i < u.len() ==> !is_ws(#[trigger] u[i])
}

proof fn lemma_url_token(s: Seq<char>, i: int)
    requires
        0 <= i,
    ensures
        first_token_where(s, i, true) matches Some(u) ==> is_url_token(u) && no_whitespace(u)
            && contains_seq(s, u),
    decreases s.len() - i,
{
    if i < s.len() {
        if is_ws(s[i]) {
            lemma_url_token(s, i + 1);
        } else {
            let e = word_end(s, i);
            lemma_word_end(s, i);
            let t = s.subrange(i, e);
            if token_matches(t, true) {
                assert forall|k: int| 0 <= k < t.len() implies !is_ws(#[trigger] t[k]) by {
                    assert(t[k] == s[i + k]);
                }
                assert(crate::text::occurs_at(s, t, i));
            } else {
                lemma_url_token(s, e);
            }
        }
    }
}

/// `starts_with(u, p)` and `u` in `s` put `p` in `s`.
proof fn lemma_prefix_occurs(s: Seq<char>, u: Seq<char>, p: Seq<char>)
    requires
        starts_with(u, p),
        contains_seq(s, u),
    ensures
        contains_seq(s, p),
{
    let q = choose|q: int| crate::text::occurs_at(s, u, q);
    assert(s.subrange(q, q + p.len()) =~= u.take(p.len() as int));
    assert(crate::text::occurs_at(s, p, q));
}

proof fn lemma_embedded_url(s: Seq<char>, proto: Seq<char>)
    requires
        proto.len() > 0,
        no_whitespace(proto),
    ensures
        embedded_url(s, proto) is Some <==> contains_seq(s, proto),
        embedded_url(s, proto) matches Some(u) ==> starts_with(u, proto) && no_whitespace(u)
            && contains_seq(s, u),
{
    lemma_first_index(s, proto);
    match first_index(s, proto) {
        Some(pos) => {
            let r = s.skip(pos);
            lemma_word_end(r, 0);
            let e = word_end(r, 0);
            let u = r.take(e);
            assert forall|k: int| 0 <= k < proto.len() implies !is_ws(#[trigger] r[k]) by {
                assert(r[k] == s.subrange(pos, pos + proto.len())[k]);
                assert(r[k] == proto[k]);
            }
            if e < proto.len() {
                assert(is_ws(r[e]));
            }
            assert(u.take(proto.len() as int) =~= proto) by {
                assert forall|k: int| 0 <= k < proto.len() implies u[k] == proto[k] by {
                    assert(u[k] == s.subrange(pos, pos + proto.len())[k]);
                }
            }
            assert forall|k: int| 0 <= k < u.len() implies !is_ws(#[trigger] u[k]) by {
                assert(u[k] == r[k]);
            }
            assert(s.subrange(pos, pos + e) =~= u);
            assert(crate::text::occurs_at(s, u, pos));
        },
        None => {},
    }
}

/// A URL is found exactly when the input holds `https://` or `http://`;
/// what is found starts with one of them, holds no whitespace and is a
/// piece of the input.
pub proof fn law_url_found(s: Seq<char>)
    ensures
        url_in(s) is Some <==> (contains_seq(s, "https://"@) || contains_seq(s, "http://"@)),
        url_in(s) matches Some(u) ==> is_url_token(u) && no_whitespace(u) && contains_seq(s, u),
{
    reveal_strlit("https://");
    reveal_strlit("http://");
    assert(no_whitespace("https://"@));
    assert(no_whitespace("http://"@));
    lemma_url_token(s, 0);
    lemma_embedded_url(s, "https://"@);
    lemma_embedded_url(s, "http://"@);
    match first_token_where(s, 0, true) {
        Some(u) => {
            if starts_with(u, "https://"@) {
                lemma_prefix_occurs(s, u, "https://"@);
            } else {
                lemma_prefix_occurs(s, u, "http://"@);
            }
        },
        None => {},
    }
}

proof fn lemma_name_after_start(vn: Seq<char>, v: Seq<char>, n: Seq<char>)
    requires
        vn == v + n,
        v.len() == 2,
        trim(n).len() > 0,
        forall|i: int| 0 < i ==> !#[trigger] occurs_at(vn, v, i),
    ensures
        name_after(vn, v) == Some(trim(n)),
{
    assert(n.len() > 0);
    assert(vn.subrange(0, 2) =~= v);
    assert(occurs_at(vn, v, 0));
    lemma_last_index_upto(vn, v, vn.len() - v.len());
    assert(vn.skip(2) =~= n);
}

proof fn lemma_name_after_absent(vn: Seq<char>, w: Seq<char>)
    requires
        forall|i: int| !#[trigger] occurs_at(vn, w, i),
    ensures
        name_after(vn, w) is None,
{
    lemma_last_index_upto(vn, w, vn.len() - w.len());
}

/// In `vn + "风格"`, where `vn` has no `风格`, the first `风格` is the one
/// appended.
proof fn lemma_style_suffix(vn: Seq<char>)
    requires
        vn.len() > 0,
        !contains_seq(vn, "风格"@),
    ensures
        first_index(vn + "风格"@, "风格"@) == Some(vn.len() as int),
        forall|i: int| 0 <= i < vn.len() ==> !#[trigger] occurs_at(vn + "风格"@, "风格"@, i),
{
    reveal_strlit("风格");
    let s = vn + "风格"@;
    let l = vn.len() as int;
    assert forall|i: int| 0 <= i < l implies !#[trigger] occurs_at(s, "风格"@, i) by {
        if i + 2 <= l {
            if occurs_at(s, "风格"@, i) {
                assert(vn.subrange(i, i + 2) =~= s.subrange(i, i + 2));
                assert(occurs_at(vn, "风格"@, i));
            }
        } else {
            assert(s[l] == '风');
            if occurs_at(s, "风格"@, i) {
                assert(s.subrange(i, i + 2)[1] == s[l]);
            }
        }
    }
    assert(occurs_at(s, "风格"@, l)) by {
        assert(s.subrange(l, l + 2) =~= "风格"@);
    }
    lemma_first_index(s, "风格"@);
    if let Some(i) = first_index(s, "风格"@) {
        if i > l {
            assert(!occurs_at(s, "风格"@, l));
        }
    }
}

/// In `vn + "风格"`, where `vn` has no `风格`, a `改风格` can only end
/// where the text ends.
proof fn lemma_gai_at_end(vn: Seq<char>)
    requires
        vn.len() > 0,
        !contains_seq(vn, "风格"@),
    ensures
        first_index(vn + "风格"@, "改风格"@) matches Some(p) ==> p + 3 == vn.len() + 2,
{
    reveal_strlit("风格");
    reveal_strlit("改风格");
    let s = vn + "风格"@;
    lemma_style_suffix(vn);
    lemma_first_index(s, "改风格"@);
    if let Some(p) = first_index(s, "改风格"@) {
        assert(s.subrange(p + 1, p + 3) =~= s.subrange(p, p + 3).subrange(1, 3));
        assert("改风格"@.subrange(1, 3) =~= "风格"@);
        assert(occurs_at(s, "风格"@, p + 1));
    }
}

/// A style request `<verb><name>风格`, the verb being 看看, 删掉 or 删除:
/// the style name is the name, trimmed, without the verb, provided the
/// name is not blank and no style verb and no `风格` occurs in
/// `<verb><name>` except the verb at its start.
pub proof fn law_style_name_after_verb(verb: Seq<char>, name: Seq<char>)
    requires
        verb == "看看"@ || verb == "删掉"@ || verb == "删除"@,
        trim(name).len() > 0,
        forall|i: int| 0 < i ==> !#[trigger] occurs_at(verb + name, "看看"@, i),
        forall|i: int| 0 < i ==> !#[trigger] occurs_at(verb + name, "删掉"@, i),
        forall|i: int| 0 < i ==> !#[trigger] occurs_at(verb + name, "删除"@, i),
        forall|i: int| 0 < i ==> !#[trigger] occurs_at(verb + name, "整体"@, i),
        forall|i: int| 0 < i ==> !#[trigger] occurs_at(verb + name, "换成"@, i),
        !contains_seq(verb + name, "风格"@),
    ensures
        style_name_in(verb + name + "风格"@) == Some(trim(name)),
{
    reveal_strlit("看看");
    reveal_strlit("删掉");
    reveal_strlit("删除");
    reveal_strlit("风格");
    reveal_strlit("改风格");
    let vn = verb + name;
    let s = vn + "风格"@;
    let l = vn.len() as int;
    assert(name.len() > 0);
    lemma_style_suffix(vn);
    lemma_gai_at_end(vn);
    let after_gai = match first_index(s, "改风格"@) {
        Some(p) => {
            let n = trim(s.skip(p + "改风格"@.len()));
            if n.len() > 0 {
                Some(n)
            } else {
                None
            }
        },
        None => None,
    };
    assert(after_gai is None) by {
        if let Some(p) = first_index(s, "改风格"@) {
            let e = s.skip(p + 3);
            assert(e.len() == 0);
            assert(trim_start(e) == e);
            assert(trim_end(e) == e);
        }
    }
    assert(s.take(l) =~= vn);
    assert(vn.subrange(0, 2) =~= verb);
    if verb == "看看"@ {
        lemma_name_after_start(vn, verb, name);
    } else if verb == "删掉"@ {
        assert(!occurs_at(vn, "看看"@, 0)) by {
            assert(vn.subrange(0, 2)[0] != "看看"@[0]);
        }
        lemma_name_after_absent(vn, "看看"@);
        lemma_name_after_start(vn, verb, name);
    } else {
        assert(!occurs_at(vn, "看看"@, 0)) by {
            assert(vn.subrange(0, 2)[0] != "看看"@[0]);
        }
        assert(!occurs_at(vn, "删掉"@, 0)) by {
            assert(vn.subrange(0, 2)[1] != "删掉"@[1]);
        }
        lemma_name_after_absent(vn, "看看"@);
        lemma_name_after_absent(vn, "删掉"@);
        lemma_name_after_start(vn, verb, name);
    }
}

/// A generate request `写一篇<topic>用<style>风格` (or `选题…` where the
/// request has no `写一篇`), on one paragraph: the topic and the style are
/// the parts around the `用`, trimmed, provided neither is blank, the style
/// holds no `用`, and `风格` does not occur before the final one.
pub proof fn law_generate_request(kw: Seq<char>, topic: Seq<char>, style: Seq<char>)
    requires
        kw == "写一篇"@ || (kw == "选题"@ && !contains_seq(
            kw + topic + "用"@ + style + "风格"@,
            "写一篇"@,
        )),
        trim(topic).len() > 0,
        trim(style).len() > 0,
        !contains_seq(style, "用"@),
        !contains_seq(topic + "用"@ + style, "风格"@),
        !contains_seq(kw + topic + "用"@ + style + "风格"@, "\n\n"@),
    ensures
        generate_request(kw + topic + "用"@ + style + "风格"@) == Some((trim(topic), trim(style))),
{
    reveal_strlit("写一篇");
    reveal_strlit("选题");
    reveal_strlit("用");
    reveal_strlit("风格");
    let vn = topic + "用"@ + style;
    let s = kw + topic + "用"@ + style + "风格"@;
    assert(s =~= kw + vn + "风格"@);
    // the paragraph is the whole request
    lemma_first_index(s, "\n\n"@);
    assert(first_paragraph(s) == s);
    // the keyword opens it
    assert(s.subrange(0, kw.len() as int) =~= kw);
    assert(occurs_at(s, kw, 0));
    assert(contains_seq(s, kw));
    lemma_first_index(s, kw);
    assert(first_index(s, kw) == Some(0int));
    assert(generate_keyword(s) == Some(kw));
    let k = topic.len() as int;
    assert(vn.subrange(k, k + 1) =~= "用"@);
    assert(occurs_at(vn, "用"@, k));
    assert(s.subrange(kw.len() + k, kw.len() + k + 1) =~= "用"@);
    assert(occurs_at(s, "用"@, kw.len() + k));
    let e = (kw.len() + vn.len()) as int;
    assert(s.subrange(e, e + 2) =~= "风格"@);
    assert(occurs_at(s, "风格"@, e));
    let after = s.skip(kw.len() as int);
    assert(after =~= vn + "风格"@);
    assert(topic.len() + 1 + style.len() > 0);
    lemma_style_suffix(vn);
    let l = vn.len() as int;
    assert(after.take(l) =~= vn);
    // the last `用` before the style is the one after the topic
    lemma_last_index_upto(vn, "用"@, vn.len() - 1);
    assert forall|j: int| k < j implies !#[trigger] occurs_at(vn, "用"@, j) by {
        if occurs_at(vn, "用"@, j) {
            assert(style.subrange(j - k - 1, j - k) =~= vn.subrange(j, j + 1));
            assert(occurs_at(style, "用"@, j - k - 1));
        }
    }
    assert(last_index(vn, "用"@) == Some(k));
    assert(vn.take(k) =~= topic);
    assert(vn.subrange(k + 1, l) =~= style);
    assert(contains_seq(s, "用"@));
    assert(contains_seq(s, "风格"@));
    assert(first_index(after, "风格"@) == Some(l));
    assert(last_index(after.take(l), "用"@) == Some(k));
    assert(after.take(k) =~= topic);
    assert(after.subrange(k + 1, l) =~= style);
    assert(generate_parts(s) == Some((trim(topic), trim(style))));
}

/// A whitespace-separated token of `s` starts at `a`.
pub open spec fn token_starts_at(s: Seq<char>, a: int) -> bool {
    0 <= a < s.len() && !is_ws(s[a]) && (a == 0 || is_ws(s[a - 1]))
}

/// The token of `s` that starts at `a`.
pub open spec fn token_at(s: Seq<char>, a: int) -> Seq<char> {
    s.subrange(a, word_end(s, a))
}

proof fn lemma_first_token_where(s: Seq<char>, i: int, url: bool)
    requires
        0 <= i <= s.len(),
        i == 0 || i == s.len() || is_ws(s[i - 1]) || is_ws(s[i]),
    ensures
        match first_token_where(s, i, url) {
            Some(t) => exists|a: int|
                #![trigger token_starts_at(s, a)]
                i <= a && token_starts_at(s, a) && t == token_at(s, a) && token_matches(t, url)
                    && forall|b: int|
                    i <= b < a && #[trigger] token_starts_at(s, b) ==> !token_matches(
                        token_at(s, b),
                        url,
                    ),
            None => forall|b: int|
                i <= b && #[trigger] token_starts_at(s, b) ==> !token_matches(token_at(s, b), url),
        },
    decreases s.len() - i,
{
    if i < s.len() {
        if is_ws(s[i]) {
            lemma_first_token_where(s, i + 1, url);
        } else {
            let e = word_end(s, i);
            lemma_word_end(s, i);
            assert(token_starts_at(s, i));
            assert forall|b: int| i < b < e implies !#[trigger] token_starts_at(s, b) by {
                assert(!is_ws(s[b - 1]));
            }
            if !token_matches(s.subrange(i, e), url) {
                lemma_first_token_where(s, e, url);
            }
        }
    }
}

/// The token picked is the first that fits: it is a whole
/// whitespace-separated token of the input that fits (a URL, or a name
/// holding `.md`), and no token before it fits; where none is picked, no
/// token fits.
pub proof fn law_first_fitting_token(s: Seq<char>, url: bool)
    ensures
        match first_token_where(s, 0, url) {
            Some(t) => exists|a: int|
                #![trigger token_starts_at(s, a)]
                token_starts_at(s, a) && t == token_at(s, a) && token_matches(t, url) && forall|
                    b: int,
                | 0 <= b < a && #[trigger] token_starts_at(s, b) ==> !token_matches(
                    token_at(s, b),
                    url,
                ),
            None => forall|b: int| #[trigger]
                token_starts_at(s, b) ==> !token_matches(token_at(s, b), url),
        },
{
    lemma_first_token_where(s, 0, url);
}

/// The `.md` path named in the input is its first whitespace-separated
/// token that holds `.md` (see [`law_first_fitting_token`]); where a token
/// starts with `https://` or `http://`, the URL found is the first such
/// token.
pub proof fn law_path_and_url_tokens(s: Seq<char>)
    ensures
        md_path_in(s) == first_token_where(s, 0, false),
        first_token_where(s, 0, true) is Some ==> url_in(s) == first_token_where(s, 0, true),
{
}

/// An update request `重写 <path> 改成<instruction>`: the path is the
/// `.md` token named, and the instruction what follows `改成`, trimmed,
/// provided the path is one token holding `.md` and no `改成`, and the
/// instruction is not blank.
pub proof fn law_update_request(path: Seq<char>, instruction: Seq<char>)
    requires
        path.len() > 0,
        forall|i: int| 0 <= i < path.len() ==> !is_ws(#[trigger] path[i]),
        contains_seq(path, ".md"@),
        !contains_seq(path, "改成"@),
        trim(instruction).len() > 0,
    ensures
        update_request("重写 "@ + path + " 改成"@ + instruction) == Some((path, trim(instruction))),
{
    reveal_strlit("重写 ");
    reveal_strlit(" 改成");
    reveal_strlit("重写");
    reveal_strlit("改成");
    reveal_strlit(".md");
    let s = "重写 "@ + path + " 改成"@ + instruction;
    let n = path.len() as int;
    // the keywords are there
    assert(s.subrange(0, 2) =~= "重写"@);
    assert(occurs_at(s, "重写"@, 0));
    assert(s.subrange(n + 4, n + 6) =~= "改成"@);
    assert(occurs_at(s, "改成"@, n + 4));
    let q = choose|q: int| occurs_at(path, ".md"@, q);
    assert(s.subrange(3 + q, 3 + q + 3) =~= path.subrange(q, q + 3));
    assert(occurs_at(s, ".md"@, 3 + q));
    // the first `改成` is the one after the path
    assert forall|j: int| 0 <= j < n + 4 implies !#[trigger] occurs_at(s, "改成"@, j) by {
        if occurs_at(s, "改成"@, j) {
            if j < 3 {
                assert(s.subrange(j, j + 2)[0] == s[j]);
                assert(s.subrange(j, j + 2)[1] == s[j + 1]);
            } else if j + 2 <= n + 3 {
                assert(path.subrange(j - 3, j - 1) =~= s.subrange(j, j + 2));
                assert(occurs_at(path, "改成"@, j - 3));
            } else {
                assert(s[n + 3] == ' ');
                assert(s.subrange(j, j + 2)[n + 3 - j] == s[n + 3]);
            }
        }
    }
    lemma_first_index(s, "改成"@);
    if let Some(g) = first_index(s, "改成"@) {
        if g > n + 4 {
            assert(!occurs_at(s, "改成"@, n + 4));
        }
    }
    assert(first_index(s, "改成"@) == Some(n + 4));
    assert(s.skip(n + 6) =~= instruction);
    // the `.md` token is the path
    assert(!is_ws(s[0]) && !is_ws(s[1]) && is_ws(s[2]));
    assert(word_end(s, 1) == 2);
    assert(word_end(s, 0) == 2);
    assert(s.subrange(0, 2) =~= "重写"@);
    assert(!contains_seq(s.subrange(0, 2), ".md"@));
    assert(first_token_where(s, 0, false) == first_token_where(s, 2, false));
    assert(first_token_where(s, 2, false) == first_token_where(s, 3, false));
    lemma_word_end(s, 3);
    assert(s[n + 3] == ' ');
    assert forall|k: int| 3 <= k < n + 3 implies !is_ws(#[trigger] s[k]) by {
        assert(s[k] == path[k - 3]);
    }
    let e = word_end(s, 3);
    if e < n + 3 {
        assert(!is_ws(s[e]));
    }
    assert(e == n + 3);
    assert(s.subrange(3, n + 3) =~= path);
    assert(first_token_where(s, 3, false) == Some(path));
}

/// Input without `https://` and `http://` holds no URL.
proof fn lemma_no_url(s: Seq<char>)
    requires
        !contains_seq(s, "https://"@),
        !contains_seq(s, "http://"@),
    ensures
        url_in(s) is None,
{
    reveal_strlit("https://");
    reveal_strlit("http://");
    lemma_first_token_where(s, 0, true);
    if let Some(t) = first_token_where(s, 0, true) {
        let a = choose|a: int|
            #![trigger token_starts_at(s, a)]
            0 <= a && token_starts_at(s, a) && t == token_at(s, a) && token_matches(t, true)
                && forall|b: int|
                0 <= b < a && #[trigger] token_starts_at(s, b) ==> !token_matches(
                    token_at(s, b),
                    true,
                );
        lemma_word_end(s, a);
        if starts_with(t, "https://"@) {
            assert(s.subrange(a, a + 8) =~= t.take(8));
            assert(occurs_at(s, "https://"@, a));
        } else {
            assert(s.subrange(a, a + 7) =~= t.take(7));
            assert(occurs_at(s, "http://"@, a));
        }
    }
    lemma_first_index(s, "https://"@);
    lemma_first_index(s, "http://"@);
}

/// A request `看看<name>风格` shows that style, and `删掉<name>风格` or
/// `删除<name>风格` deletes it, in every state, the name taken as in
/// [`law_style_name_after_verb`], when the request holds no URL and none of
/// the words of the other library requests (`有哪些`, `列出`, `风格库`,
/// `详情`, `摘要`).
pub proof fn law_style_requests(verb: Seq<char>, name: Seq<char>, state: SessionState)
    requires
        verb == "看看"@ || verb == "删掉"@ || verb == "删除"@,
        trim(name).len() > 0,
        forall|i: int| 0 < i ==> !#[trigger] occurs_at(verb + name, "看看"@, i),
        forall|i: int| 0 < i ==> !#[trigger] occurs_at(verb + name, "删掉"@, i),
        forall|i: int| 0 < i ==> !#[trigger] occurs_at(verb + name, "删除"@, i),
        forall|i: int| 0 < i ==> !#[trigger] occurs_at(verb + name, "整体"@, i),
        forall|i: int| 0 < i ==> !#[trigger] occurs_at(verb + name, "换成"@, i),
        !contains_seq(verb + name, "风格"@),
        !contains_seq(verb + name + "风格"@, "https://"@),
        !contains_seq(verb + name + "风格"@, "http://"@),
        !contains_seq(verb + name + "风格"@, "有哪些"@),
        !contains_seq(verb + name + "风格"@, "列出"@),
        !contains_seq(verb + name + "风格"@, "风格库"@),
        !contains_seq(verb + name + "风格"@, "详情"@),
        !contains_seq(verb + name + "风格"@, "摘要"@),
    ensures
        verb == "看看"@ ==> intent_of(verb + name + "风格"@, state) == (IntentModel::ShowStyle {
            name: trim(name),
        }),
        verb != "看看"@ ==> intent_of(verb + name + "风格"@, state) == (IntentModel::DeleteStyle {
            name: trim(name),
        }),
{
    reveal_strlit("看看");
    reveal_strlit("删掉");
    reveal_strlit("删除");
    reveal_strlit("风格");
    let s = verb + name + "风格"@;
    law_style_name_after_verb(verb, name);
    lemma_no_url(s);
    // the input is already trimmed: it starts with the verb and ends with `格`
    assert(s.len() > 0);
    assert(s[0] == verb[0]);
    assert(s[s.len() - 1] == '格');
    assert(!is_ws(s[0]));
    assert(crate::text::trim_start(s) == s);
    assert(crate::text::trim_end(s) == s);
    assert(trim(s) == s);
    // the verb and `风格` are there
    assert(s.subrange(0, 2) =~= verb);
    assert(occurs_at(s, verb, 0));
    let l = (verb.len() + name.len()) as int;
    assert(s.subrange(l, l + 2) =~= "风格"@);
    assert(occurs_at(s, "风格"@, l));
    if verb != "看看"@ {
        // no `看看` anywhere: not after the start, and the verb is another
        assert forall|i: int| !#[trigger] occurs_at(s, "看看"@, i) by {
            if occurs_at(s, "看看"@, i) {
                assert(verb[0] == '删');
                if i == 0 {
                    assert(s.subrange(0, 2)[0] == s[0]);
                } else if i + 2 <= l {
                    assert((verb + name).subrange(i, i + 2) =~= s.subrange(i, i + 2));
                    assert(occurs_at(verb + name, "看看"@, i));
                } else if i == l - 1 {
                    assert(s.subrange(i, i + 2)[1] == s[l]);
                } else {
                    assert(s.subrange(i, i + 2)[0] == s[i]);
                    assert(s[l] == '风');
                }
            }
        }
        assert(!show_style_words(s));
    }
}

/// A redraw request `<path> 改<instruction>`: the path is the `.md` file
/// named first, and the instruction what follows `改`, provided the path is
/// one token holding `.md`, the request holds no `重写`, and the
/// instruction is not blank, does not start or end with whitespace and does
/// not start with `改`.
pub proof fn law_refine_request(path: Seq<char>, instruction: Seq<char>)
    requires
        path.len() > 0,
        forall|i: int| 0 <= i < path.len() ==> !is_ws(#[trigger] path[i]),
        contains_seq(path, ".md"@),
        !contains_seq(path + " 改"@ + instruction, "重写"@),
        instruction.len() > 0,
        !is_ws(instruction[0]),
        !is_ws(instruction.last()),
        instruction[0] != '改',
    ensures
        refine_request(path + " 改"@ + instruction) == Some((path, instruction)),
{
    reveal_strlit(" 改");
    reveal_strlit("改");
    reveal_strlit(".md");
    let s = path + " 改"@ + instruction;
    let n = path.len() as int;
    // the words looked for are there
    let q = choose|q: int| occurs_at(path, ".md"@, q);
    assert(s.subrange(q, q + 3) =~= path.subrange(q, q + 3));
    assert(occurs_at(s, ".md"@, q));
    assert(s.subrange(n + 1, n + 2) =~= "改"@);
    assert(occurs_at(s, "改"@, n + 1));
    // the first `.md` token is the path
    lemma_word_end(s, 0);
    assert forall|k: int| 0 <= k < n implies !is_ws(#[trigger] s[k]) by {
        assert(s[k] == path[k]);
    }
    let e = word_end(s, 0);
    assert(is_ws(s[n]));
    if e < n {
        assert(!is_ws(s[e]));
    }
    assert(e == n);
    assert(s.subrange(0, n) =~= path);
    assert(!is_ws(s[0]));
    assert(md_path_in(s) == Some(path));
    // the path first occurs at the start
    assert(s.subrange(0, n) =~= path);
    assert(occurs_at(s, path, 0));
    lemma_first_index(s, path);
    assert(first_index(s, path) == Some(0int));
    // what follows the path is ` 改<instruction>`
    let rest = s.skip(n);
    assert(rest =~= " 改"@ + instruction);
    assert(is_ws(rest[0]));
    assert(rest.drop_first() =~= "改"@ + instruction);
    assert(crate::text::trim_start(rest) == crate::text::trim_start(rest.drop_first()));
    let g = "改"@ + instruction;
    assert(!is_ws(g[0]));
    assert(crate::text::trim_start(g) == g);
    assert(g.last() == instruction.last());
    assert(crate::text::trim_end(g) == g);
    assert(trim(rest) == g);
    assert(g.drop_first() =~= instruction);
    assert(strip_leading(g, '改') == strip_leading(instruction, '改'));
    assert(strip_leading(instruction, '改') == instruction);
    assert(crate::text::trim_start(instruction) == instruction);
    assert(crate::text::trim_end(instruction) == instruction);
}

} // verus!
