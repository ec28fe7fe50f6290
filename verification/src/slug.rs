//! Slugs (file-name stems) of articles, and versioned output names.

use vstd::prelude::*;
use crate::text::{
    chars_of, lines, lines_of, starts_with, starts_with_chars, string_of, strip_leading,
    strip_leading_chars, trim, trim_chars, trim_start, trim_start_chars, views, slice_chars,
};

verus! {

broadcast use vstd::string::group_string_axioms;

/// `char::is_alphanumeric` (Unicode `Alphabetic` or `Numeric`).
pub uninterp spec fn is_alphanumeric(c: char) -> bool;

/// Calls std `char::is_alphanumeric`; its result is named [`is_alphanumeric`].
/// Among ASCII characters exactly the letters and digits are alphanumeric:
/// they are the ASCII characters that Unicode calls `Alphabetic` or
/// `Numeric`, the two properties std's documentation of the method names.
/// What it gives beyond ASCII is left to the name.
#[verifier::external_body]
fn char_is_alphanumeric(c: char) -> (r: bool)
    ensures
        r == is_alphanumeric(c),
        (c as u32) < 128 ==> (r <==> ('a' <= c <= 'z' || 'A' <= c <= 'Z' || '0' <= c <= '9')),
{
    c.is_alphanumeric()
}

/// A character kept in a slug: alphanumeric, `_` or `-`.
pub open spec fn slug_char(c: char) -> bool {
    is_alphanumeric(c) || c == '_' || c == '-'
}

/// The slug characters of `s`, in order.
pub open spec fn keep_slug_chars(s: Seq<char>) -> Seq<char>
    decreases s.len(),
{
    if s.len() == 0 {
        Seq::empty()
    } else if slug_char(s.last()) {
        keep_slug_chars(s.drop_last()).push(s.last())
    } else {
        keep_slug_chars(s.drop_last())
    }
}

/// The theme declared on a line: after optional `#`s and whitespace, the
/// text after `文章主题：` (full-width colon) or `文章主题:`.
pub open spec fn theme_of_line(l: Seq<char>) -> Option<Seq<char>> {
    let st = trim_start(strip_leading(l, '#'));
    if starts_with(st, "文章主题："@) {
        Some(st.skip("文章主题："@.len() as int))
    } else if starts_with(st, "文章主题:"@) {
        Some(st.skip("文章主题:"@.len() as int))
    } else {
        None
    }
}

/// The theme of the first line that declares one.
pub open spec fn first_theme(ls: Seq<Seq<char>>) -> Option<Seq<char>>
    decreases ls.len(),
{
    if ls.len() == 0 {
        None
    } else if theme_of_line(ls[0]) is Some {
        theme_of_line(ls[0])
    } else {
        first_theme(ls.drop_first())
    }
}

/// The first line that starts with `#` and has something after the `#`s,
/// without the `#`s, trimmed.
pub open spec fn first_heading(ls: Seq<Seq<char>>) -> Option<Seq<char>>
    decreases ls.len(),
{
    if ls.len() == 0 {
        None
    } else if starts_with(ls[0], "#"@) && strip_leading(ls[0], '#').len() > 0 {
        Some(trim(strip_leading(ls[0], '#')))
    } else {
        first_heading(ls.drop_first())
    }
}

/// The slug of an idea: the declared theme (else the first heading, else
/// `untitled`), trimmed, keeping only alphanumerics, `_` and `-`; `untitled`
/// when nothing is left.
pub open spec fn idea_slug(idea: Seq<char>) -> Seq<char> {
    let ls = lines(idea);
    let raw = match first_theme(ls) {
        Some(t) => t,
        None => match first_heading(ls) {
            Some(h) => h,
            None => "untitled"@,
        },
    };
    let slug = keep_slug_chars(trim(raw));
    if slug.len() == 0 {
        "untitled"@
    } else {
        slug
    }
}

fn theme_in(l: &[char]) -> (r: Option<Vec<char>>)
    ensures
        crate::intent::opt_vec_view(r) == theme_of_line(l@),
{
    let st = trim_start_chars(strip_leading_chars(l, '#').as_slice());
    let k1 = chars_of("文章主题：");
    if starts_with_chars(st.as_slice(), k1.as_slice()) {
        return Some(slice_chars(st.as_slice(), k1.len(), st.len()));
    }
    let k2 = chars_of("文章主题:");
    if starts_with_chars(st.as_slice(), k2.as_slice()) {
        return Some(slice_chars(st.as_slice(), k2.len(), st.len()));
    }
    None
}

fn find_theme(ls: &Vec<Vec<char>>) -> (r: Option<Vec<char>>)
    ensures
        crate::intent::opt_vec_view(r) == first_theme(views(ls@)),
{
    let ghost lv = views(ls@);
    let mut i: usize = 0;
    assert(lv.skip(0) == lv);
    while i < ls.len()
        invariant
            i <= ls@.len(),
            lv == views(ls@),
            first_theme(lv) == first_theme(lv.skip(i as int)),
        decreases ls.len() - i,
    {
        assert(lv.skip(i as int)[0] == ls@[i as int]@);
        assert(lv.skip(i as int).drop_first() == lv.skip(i + 1));
        if let Some(t) = theme_in(ls[i].as_slice()) {
            return Some(t);
        }
        i += 1;
    }
    assert(lv.skip(i as int).len() == 0);
    None
}

fn find_heading(ls: &Vec<Vec<char>>) -> (r: Option<Vec<char>>)
    ensures
        crate::intent::opt_vec_view(r) == first_heading(views(ls@)),
{
    let ghost lv = views(ls@);
    let hash = chars_of("#");
    let mut j: usize = 0;
    assert(lv.skip(0) == lv);
    while j < ls.len()
        invariant
            j <= ls@.len(),
            lv == views(ls@),
            hash@ == "#"@,
            first_heading(lv) == first_heading(lv.skip(j as int)),
        decreases ls.len() - j,
    {
        assert(lv.skip(j as int)[0] == ls@[j as int]@);
        assert(lv.skip(j as int).drop_first() == lv.skip(j + 1));
        let line = ls[j].as_slice();
        if starts_with_chars(line, hash.as_slice()) && strip_leading_chars(line, '#').len() > 0 {
            return Some(trim_chars(strip_leading_chars(line, '#').as_slice()));
        }
        j += 1;
    }
    assert(lv.skip(j as int).len() == 0);
    None
}

/// The slug of an idea text (see [`idea_slug`]). It is never empty and holds
/// only alphanumerics, `_` and `-`.
pub fn extract_idea_slug(idea: &str) -> (r: String)
    ensures
        r@ == idea_slug(idea@),
        r@.len() > 0,
        forall|i: int| 0 <= i < r@.len() ==> slug_char(#[trigger] r@[i]),
        (forall|j: int|
            0 <= j < lines(idea@).len() ==> #[trigger] theme_of_line(lines(idea@)[j]) is None
                && !is_heading_line(lines(idea@)[j])) ==> r@ == "untitled"@,
{
    let s = chars_of(idea);
    let ls = lines_of(s.as_slice());
    let raw = match find_theme(&ls) {
        Some(t) => Some(t),
        None => find_heading(&ls),
    };
    let raw_chars = match raw {
        Some(v) => v,
        None => chars_of("untitled"),
    };
    let t = trim_chars(raw_chars.as_slice());
    let mut flags: Vec<bool> = Vec::new();
    let mut k: usize = 0;
    while k < t.len()
        invariant
            k <= t@.len(),
            flags@.len() == k,
            forall|j: int| 0 <= j < k ==> flags@[j] == is_alphanumeric(#[trigger] t@[j]),
        decreases t.len() - k,
    {
        flags.push(char_is_alphanumeric(t[k]));
        k += 1;
    }
    proof {
        lemma_kept_given(t@, flags@);
    }
    let ts = string_of(t.as_slice());
    let r = finish_slug(ts.as_str(), &flags);
    // The fallback's letters are alphanumeric: ask for each of them.
    char_is_alphanumeric('u');
    char_is_alphanumeric('n');
    char_is_alphanumeric('t');
    char_is_alphanumeric('i');
    char_is_alphanumeric('l');
    char_is_alphanumeric('e');
    char_is_alphanumeric('d');
    proof {
        law_slug_is_file_safe(idea@);
        law_slug_source(idea@);
        reveal_strlit("untitled");
        let u = "untitled"@;
        assert(trim(u) == u) by {
            assert(!crate::text::is_ws(u[0]));
            assert(u.len() > 0 && !crate::text::is_ws(u.last()));
            assert(crate::text::trim_start(u) == u);
            assert(crate::text::trim_end(u) == u);
        }
        assert forall|i: int| 0 <= i < u.len() implies slug_char(#[trigger] u[i]) by {
            assert(is_alphanumeric(u[i]));
        }
        lemma_keep_all_slug(u);
    }
    r
}

/// The characters of `s` kept in a slug, `alphanumeric[i]` telling whether
/// `s[i]` is alphanumeric.
pub open spec fn kept_given(s: Seq<char>, alphanumeric: Seq<bool>) -> Seq<char>
    decreases s.len(),
{
    if s.len() == 0 {
        Seq::empty()
    } else {
        let c = s.last();
        let rest = kept_given(s.drop_last(), alphanumeric.take(s.len() - 1));
        if alphanumeric[s.len() - 1] || c == '_' || c == '-' {
            rest.push(c)
        } else {
            rest
        }
    }
}

/// A slug from trimmed text and the alphanumeric flags of its characters.
pub open spec fn slug_given(text: Seq<char>, alphanumeric: Seq<bool>) -> Seq<char> {
    let kept = kept_given(text, alphanumeric);
    if kept.len() == 0 {
        "untitled"@
    } else {
        kept
    }
}

proof fn lemma_kept_given(s: Seq<char>, alphanumeric: Seq<bool>)
    requires
        alphanumeric.len() == s.len(),
        forall|j: int| 0 <= j < s.len() ==> alphanumeric[j] == is_alphanumeric(#[trigger] s[j]),
    ensures
        kept_given(s, alphanumeric) == keep_slug_chars(s),
    decreases s.len(),
{
    if s.len() > 0 {
        let a = alphanumeric.take(s.len() - 1);
        assert forall|j: int| 0 <= j < s.len() - 1 implies a[j] == is_alphanumeric(
            #[trigger] s.drop_last()[j],
        ) by {
            assert(s.drop_last()[j] == s[j]);
        }
        lemma_kept_given(s.drop_last(), a);
        assert(alphanumeric[s.len() - 1] == is_alphanumeric(s[s.len() - 1]));
    }
}

/// Finishes a slug: keeps the characters flagged alphanumeric and `_`,
/// `-`; `untitled` when nothing is kept.
pub fn finish_slug(text: &str, alphanumeric: &Vec<bool>) -> (r: String)
    requires
        alphanumeric@.len() == text@.len(),
    ensures
        r@ == slug_given(text@, alphanumeric@),
{
    let t = chars_of(text);
    let mut slug: Vec<char> = Vec::new();
    let mut k: usize = 0;
    while k < t.len()
        invariant
            k <= t@.len(),
            t@ == text@,
            alphanumeric@.len() == t@.len(),
            slug@ == kept_given(t@.take(k as int), alphanumeric@.take(k as int)),
        decreases t.len() - k,
    {
        let c = t[k];
        assert(t@.take(k + 1).drop_last() == t@.take(k as int));
        assert(alphanumeric@.take(k + 1).take(k as int) == alphanumeric@.take(k as int));
        if alphanumeric[k] || c == '_' || c == '-' {
            slug.push(c);
        }
        k += 1;
    }
    assert(t@.take(t@.len() as int) == t@);
    assert(alphanumeric@.take(t@.len() as int) == alphanumeric@);
    if slug.len() == 0 {
        return "untitled".to_owned();
    }
    string_of(slug.as_slice())
}

/// Everything `keep_slug_chars` keeps is a slug character.
proof fn lemma_keep_slug_chars(s: Seq<char>)
    ensures
        forall|i: int|
            0 <= i < keep_slug_chars(s).len() ==> slug_char(#[trigger] keep_slug_chars(s)[i]),
    decreases s.len(),
{
    if s.len() > 0 {
        lemma_keep_slug_chars(s.drop_last());
        let k = keep_slug_chars(s.drop_last());
        if slug_char(s.last()) {
            assert forall|i: int| 0 <= i < k.push(s.last()).len() implies slug_char(
                #[trigger] k.push(s.last())[i],
            ) by {
                if i < k.len() {
                    assert(k.push(s.last())[i] == k[i]);
                }
            }
        }
    }
}

/// A slug can name a file: it is never empty, and apart from the fallback
/// `untitled` it holds only alphanumerics, `_` and `-` (so no path
/// separator, space or dot).
pub proof fn law_slug_is_file_safe(idea: Seq<char>)
    ensures
        idea_slug(idea).len() > 0,
        idea_slug(idea) == "untitled"@ || forall|i: int|
            0 <= i < idea_slug(idea).len() ==> slug_char(#[trigger] idea_slug(idea)[i]),
{
    reveal_strlit("untitled");
    let ls = lines(idea);
    let raw = match first_theme(ls) {
        Some(t) => t,
        None => match first_heading(ls) {
            Some(h) => h,
            None => "untitled"@,
        },
    };
    lemma_keep_slug_chars(trim(raw));
}

/// Whether a line is a heading with text: it starts with `#` and has
/// something after the `#`s.
pub open spec fn is_heading_line(l: Seq<char>) -> bool {
    starts_with(l, "#"@) && strip_leading(l, '#').len() > 0
}

/// The slug made of a raw title: trimmed, keeping only alphanumerics, `_`
/// and `-`; `untitled` when nothing is left.
pub open spec fn slug_from(raw: Seq<char>) -> Seq<char> {
    let kept = keep_slug_chars(trim(raw));
    if kept.len() == 0 {
        "untitled"@
    } else {
        kept
    }
}

proof fn lemma_first_theme_at(ls: Seq<Seq<char>>, k: int)
    requires
        0 <= k < ls.len(),
        theme_of_line(ls[k]) is Some,
        forall|j: int| 0 <= j < k ==> #[trigger] theme_of_line(ls[j]) is None,
    ensures
        first_theme(ls) == theme_of_line(ls[k]),
    decreases k,
{
    if k > 0 {
        assert(theme_of_line(ls[0]) is None);
        let rest = ls.drop_first();
        assert forall|j: int| 0 <= j < k - 1 implies #[trigger] theme_of_line(rest[j]) is None by {
            assert(rest[j] == ls[j + 1]);
        }
        assert(rest[k - 1] == ls[k]);
        lemma_first_theme_at(rest, k - 1);
    }
}

proof fn lemma_no_theme(ls: Seq<Seq<char>>)
    requires
        forall|j: int| 0 <= j < ls.len() ==> #[trigger] theme_of_line(ls[j]) is None,
    ensures
        first_theme(ls) is None,
    decreases ls.len(),
{
    if ls.len() > 0 {
        assert(theme_of_line(ls[0]) is None);
        let rest = ls.drop_first();
        assert forall|j: int| 0 <= j < rest.len() implies #[trigger] theme_of_line(rest[j]) is None by {
            assert(rest[j] == ls[j + 1]);
        }
        lemma_no_theme(rest);
    }
}

proof fn lemma_first_heading_at(ls: Seq<Seq<char>>, k: int)
    requires
        0 <= k < ls.len(),
        is_heading_line(ls[k]),
        forall|j: int| 0 <= j < k ==> !is_heading_line(#[trigger] ls[j]),
    ensures
        first_heading(ls) == Some(trim(strip_leading(ls[k], '#'))),
    decreases k,
{
    if k > 0 {
        assert(!is_heading_line(ls[0]));
        let rest = ls.drop_first();
        assert forall|j: int| 0 <= j < k - 1 implies !is_heading_line(#[trigger] rest[j]) by {
            assert(rest[j] == ls[j + 1]);
        }
        assert(rest[k - 1] == ls[k]);
        lemma_first_heading_at(rest, k - 1);
    }
}

proof fn lemma_no_heading(ls: Seq<Seq<char>>)
    requires
        forall|j: int| 0 <= j < ls.len() ==> !is_heading_line(#[trigger] ls[j]),
    ensures
        first_heading(ls) is None,
    decreases ls.len(),
{
    if ls.len() > 0 {
        assert(!is_heading_line(ls[0]));
        let rest = ls.drop_first();
        assert forall|j: int| 0 <= j < rest.len() implies !is_heading_line(#[trigger] rest[j]) by {
            assert(rest[j] == ls[j + 1]);
        }
        lemma_no_heading(rest);
    }
}

/// Where the slug comes from: the earliest line that declares a theme (no
/// line before it declares one); without a declared theme, the earliest
/// heading with text (no line before it is one); without either, the
/// fallback `untitled`.
pub proof fn law_slug_source(idea: Seq<char>)
    ensures
        forall|k: int|
            #![trigger lines(idea)[k]]
            0 <= k < lines(idea).len() && theme_of_line(lines(idea)[k]) is Some && (forall|j: int|
                0 <= j < k ==> #[trigger] theme_of_line(lines(idea)[j]) is None) ==> idea_slug(idea)
                == slug_from(theme_of_line(lines(idea)[k])->0),
        (forall|j: int|
            0 <= j < lines(idea).len() ==> #[trigger] theme_of_line(lines(idea)[j]) is None) ==> (
        forall|k: int|
            #![trigger lines(idea)[k]]
            0 <= k < lines(idea).len() && is_heading_line(lines(idea)[k]) && (forall|j: int|
                0 <= j < k ==> !is_heading_line(#[trigger] lines(idea)[j])) ==> idea_slug(idea)
                == slug_from(trim(strip_leading(lines(idea)[k], '#')))),
        (forall|j: int|
            0 <= j < lines(idea).len() ==> #[trigger] theme_of_line(lines(idea)[j]) is None
                && !is_heading_line(lines(idea)[j])) ==> idea_slug(idea) == slug_from(
            "untitled"@,
        ),
{
    reveal_strlit("untitled");
    let ls = lines(idea);
    assert forall|k: int|
        #![trigger ls[k]]
        0 <= k < ls.len() && theme_of_line(ls[k]) is Some && (forall|j: int|
            0 <= j < k ==> #[trigger] theme_of_line(ls[j]) is None) implies idea_slug(idea)
        == slug_from(theme_of_line(ls[k])->0) by {
        lemma_first_theme_at(ls, k);
    }
    if forall|j: int| 0 <= j < ls.len() ==> #[trigger] theme_of_line(ls[j]) is None {
        lemma_no_theme(ls);
        assert forall|k: int|
            #![trigger ls[k]]
            0 <= k < ls.len() && is_heading_line(ls[k]) && (forall|j: int|
                0 <= j < k ==> !is_heading_line(#[trigger] ls[j])) implies idea_slug(idea)
            == slug_from(trim(strip_leading(ls[k], '#'))) by {
            lemma_first_heading_at(ls, k);
        }
    }
    if forall|j: int|
        0 <= j < ls.len() ==> #[trigger] theme_of_line(ls[j]) is None && !is_heading_line(ls[j]) {
        lemma_no_theme(ls);
        lemma_no_heading(ls);
    }
}

/// Text made only of slug characters is kept whole.
proof fn lemma_keep_all_slug(s: Seq<char>)
    requires
        forall|i: int| 0 <= i < s.len() ==> slug_char(#[trigger] s[i]),
    ensures
        keep_slug_chars(s) == s,
    decreases s.len(),
{
    if s.len() > 0 {
        assert forall|i: int| 0 <= i < s.len() - 1 implies slug_char(#[trigger] s.drop_last()[i]) by {
            assert(s.drop_last()[i] == s[i]);
        }
        lemma_keep_all_slug(s.drop_last());
        assert(slug_char(s[s.len() - 1]));
        assert(s.drop_last().push(s.last()) =~= s);
    }
}

} // verus!
