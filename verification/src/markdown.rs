//! Markdown → WeChat-ready HTML, and small article helpers.

use vstd::prelude::*;
use crate::text::{
    chars_of, lines, lines_of, push_all, push_str, replace_all, replace_all_chars, starts_with,
    starts_with_chars, string_of, strip_leading, strip_leading_chars, trim, trim_chars, views,
};

verus! {

broadcast use vstd::string::group_string_axioms;

/// The HTML that `pulldown_cmark` renders for `md` (strikethrough and
/// tables enabled).
pub uninterp spec fn markdown_html(md: Seq<char>) -> Seq<char>;

/// Calls `pulldown_cmark::Parser::new_ext` (options: strikethrough, tables)
/// and `pulldown_cmark::html::push_html`; the rendered HTML is named
/// [`markdown_html`] of the input. Nothing else is claimed of it.
#[verifier::external_body]
fn render_markdown(markdown: &str) -> (html: String)
    ensures
        html@ == markdown_html(markdown@),
{
    let mut opts = pulldown_cmark::Options::empty();
    opts.insert(pulldown_cmark::Options::ENABLE_STRIKETHROUGH);
    opts.insert(pulldown_cmark::Options::ENABLE_TABLES);
    let parser = pulldown_cmark::Parser::new_ext(markdown, opts);
    let mut html = String::new();
    pulldown_cmark::html::push_html(&mut html, parser);
    html
}

/// The opening tag of the WeChat section (minimal inline style).
pub open spec fn section_open() -> Seq<char> {
    "<section style=\"font-size:15px;line-height:2;color:#333;\">"@
}

/// `raw` HTML made WeChat-ready: `<hr />` and `<hr>` tags removed (the
/// editor strips styles, so rules would show bare), wrapped in a styled
/// section.
pub open spec fn wechat_section(raw: Seq<char>) -> Seq<char> {
    section_open() + replace_all(replace_all(raw, "<hr />"@, Seq::empty()), "<hr>"@, Seq::empty())
        + "</section>"@
}

/// Makes rendered HTML WeChat-ready (see [`wechat_section`]).
pub fn wrap_wechat_html(raw_html: &str) -> (r: String)
    ensures
        r@ == wechat_section(raw_html@),
{
    let raw = chars_of(raw_html);
    let hr1 = chars_of("<hr />");
    let hr2 = chars_of("<hr>");
    proof {
        reveal_strlit("<hr />");
        reveal_strlit("<hr>");
    }
    let empty: Vec<char> = Vec::new();
    let a = replace_all_chars(raw.as_slice(), hr1.as_slice(), empty.as_slice());
    let b = replace_all_chars(a.as_slice(), hr2.as_slice(), empty.as_slice());
    let mut v: Vec<char> = Vec::new();
    push_str(&mut v, "<section style=\"font-size:15px;line-height:2;color:#333;\">");
    push_all(&mut v, b.as_slice());
    push_str(&mut v, "</section>");
    string_of(v.as_slice())
}

/// Markdown → WeChat HTML fragment: rendered by `pulldown_cmark`, then made
/// WeChat-ready.
pub fn md_to_wechat_html(markdown: &str) -> (r: String)
    ensures
        r@ == wechat_section(markdown_html(markdown@)),
{
    let raw = render_markdown(markdown);
    wrap_wechat_html(raw.as_str())
}

/// A standalone UTF-8 HTML document around a fragment.
pub open spec fn html_document_text(fragment: Seq<char>) -> Seq<char> {
    "<!DOCTYPE html>\n<html>\n<head><meta charset=\"utf-8\"></head>\n<body>\n"@ + fragment
        + "\n</body>\n</html>"@
}

/// A standalone UTF-8 HTML document around a fragment.
pub fn html_document(fragment: &str) -> (r: String)
    ensures
        r@ == html_document_text(fragment@),
{
    let mut v: Vec<char> = Vec::new();
    push_str(&mut v, "<!DOCTYPE html>\n<html>\n<head><meta charset=\"utf-8\"></head>\n<body>\n");
    push_str(&mut v, fragment);
    push_str(&mut v, "\n</body>\n</html>");
    string_of(v.as_slice())
}

/// The first line whose trimmed text starts with `#`, without its `#`s, trimmed.
pub open spec fn first_title(ls: Seq<Seq<char>>) -> Option<Seq<char>>
    decreases ls.len(),
{
    if ls.len() == 0 {
        None
    } else if starts_with(trim(ls[0]), "#"@) {
        Some(trim(strip_leading(trim(ls[0]), '#')))
    } else {
        first_title(ls.drop_first())
    }
}

/// The title of a Markdown text: its first heading, or `Untitled`.
pub open spec fn title_of(markdown: Seq<char>) -> Seq<char> {
    match first_title(lines(markdown)) {
        Some(t) => t,
        None => "Untitled"@,
    }
}

/// The title of a Markdown text: its first heading, or `Untitled`.
pub fn extract_title(markdown: &str) -> (r: String)
    ensures
        r@ == title_of(markdown@),
{
    let s = chars_of(markdown);
    let ls = lines_of(s.as_slice());
    let ghost lv = views(ls@);
    let hash = chars_of("#");
    let mut i: usize = 0;
    assert(lv.skip(0) == lv);
    while i < ls.len()
        invariant
            i <= ls@.len(),
            lv == views(ls@),
            lv == lines(markdown@),
            hash@ == "#"@,
            first_title(lv) == first_title(lv.skip(i as int)),
        decreases ls.len() - i,
    {
        assert(lv.skip(i as int)[0] == ls@[i as int]@);
        assert(lv.skip(i as int).drop_first() == lv.skip(i + 1));
        let t = trim_chars(ls[i].as_slice());
        if starts_with_chars(t.as_slice(), hash.as_slice()) {
            let title = trim_chars(strip_leading_chars(t.as_slice(), '#').as_slice());
            return string_of(title.as_slice());
        }
        i += 1;
    }
    assert(lv.skip(i as int).len() == 0);
    string_of(chars_of("Untitled").as_slice())
}

/// A horizontal rule of 60 box-drawing characters.
pub open spec fn separator_text() -> Seq<char> {
    Seq::new(60, |i: int| '─')
}

/// A horizontal rule of 60 box-drawing characters.
pub fn sep() -> (r: String)
    ensures
        r@ == separator_text(),
{
    let mut v: Vec<char> = Vec::new();
    while v.len() < 60
        invariant
            v@.len() <= 60,
            v@ == Seq::new(v@.len(), |i: int| '─'),
        decreases 60 - v.len(),
    {
        v.push('─');
        assert(v@ =~= Seq::new(v@.len(), |i: int| '─'));
    }
    string_of(v.as_slice())
}

/// Whether a line of Markdown is a heading: its trimmed text starts with
/// `#`.
pub open spec fn is_title_line(l: Seq<char>) -> bool {
    starts_with(trim(l), "#"@)
}

proof fn lemma_first_title_at(ls: Seq<Seq<char>>, k: int)
    requires
        0 <= k < ls.len(),
        is_title_line(ls[k]),
        forall|j: int| 0 <= j < k ==> !is_title_line(#[trigger] ls[j]),
    ensures
        first_title(ls) == Some(trim(strip_leading(trim(ls[k]), '#'))),
    decreases k,
{
    if k > 0 {
        assert(!is_title_line(ls[0]));
        let rest = ls.drop_first();
        assert forall|j: int| 0 <= j < k - 1 implies !is_title_line(#[trigger] rest[j]) by {
            assert(rest[j] == ls[j + 1]);
        }
        assert(rest[k - 1] == ls[k]);
        lemma_first_title_at(rest, k - 1);
    }
}

proof fn lemma_no_title(ls: Seq<Seq<char>>)
    requires
        forall|j: int| 0 <= j < ls.len() ==> !is_title_line(#[trigger] ls[j]),
    ensures
        first_title(ls) is None,
    decreases ls.len(),
{
    if ls.len() > 0 {
        assert(!is_title_line(ls[0]));
        let rest = ls.drop_first();
        assert forall|j: int| 0 <= j < rest.len() implies !is_title_line(#[trigger] rest[j]) by {
            assert(rest[j] == ls[j + 1]);
        }
        lemma_no_title(rest);
    }
}

/// The title is taken from the earliest heading (no line before it is
/// one): its text without the `#`s, trimmed; a text without a heading is
/// `Untitled`.
pub proof fn law_title_from_first_heading(markdown: Seq<char>)
    ensures
        forall|k: int|
            #![trigger lines(markdown)[k]]
            0 <= k < lines(markdown).len() && is_title_line(lines(markdown)[k]) && (forall|j: int|
                0 <= j < k ==> !is_title_line(#[trigger] lines(markdown)[j])) ==> title_of(markdown)
                == trim(strip_leading(trim(lines(markdown)[k]), '#')),
        (forall|j: int| 0 <= j < lines(markdown).len() ==> !is_title_line(#[trigger] lines(markdown)[j]))
            ==> title_of(markdown) == "Untitled"@,
{
    let ls = lines(markdown);
    assert forall|k: int|
        #![trigger ls[k]]
        0 <= k < ls.len() && is_title_line(ls[k]) && (forall|j: int|
            0 <= j < k ==> !is_title_line(#[trigger] ls[j])) implies title_of(markdown) == trim(
        strip_leading(trim(ls[k]), '#'),
    ) by {
        lemma_first_title_at(ls, k);
    }
    if forall|j: int| 0 <= j < ls.len() ==> !is_title_line(#[trigger] ls[j]) {
        lemma_no_title(ls);
    }
}

} // verus!
