//! Learning a style from an article: extracting readable text from HTML,
//! and checking the name a learned style is saved under.

use vstd::prelude::*;
use crate::text::{
    chars_of, contains_char, contains_seq, first_index, is_blank, is_ws, lemma_first_index, lines,
    lines_of, push_all, push_str, string_of, strip_cr, trim, trim_chars, trim_end, trim_start,
    views,
};

verus! {

broadcast use vstd::string::group_string_axioms;

/// The characters of `s` outside `<…>` tags, `in_tag` telling whether `s`
/// starts inside a tag.
pub open spec fn strip_tags(s: Seq<char>, in_tag: bool) -> Seq<char>
    decreases s.len(),
{
    if s.len() == 0 {
        Seq::empty()
    } else if s[0] == '<' {
        strip_tags(s.drop_first(), true)
    } else if s[0] == '>' {
        strip_tags(s.drop_first(), false)
    } else if !in_tag {
        seq![s[0]] + strip_tags(s.drop_first(), false)
    } else {
        strip_tags(s.drop_first(), true)
    }
}

/// Whether a line is blank (only whitespace).
pub open spec fn blank_line(l: Seq<char>) -> bool {
    trim(l).len() == 0
}

/// `ls` without each blank line that follows a kept blank line
/// (`prev_blank`: whether the last kept line was blank).
pub open spec fn squeeze_blank_lines(ls: Seq<Seq<char>>, prev_blank: bool) -> Seq<Seq<char>>
    decreases ls.len(),
{
    if ls.len() == 0 {
        Seq::empty()
    } else if blank_line(ls[0]) && prev_blank {
        squeeze_blank_lines(ls.drop_first(), prev_blank)
    } else {
        seq![ls[0]] + squeeze_blank_lines(ls.drop_first(), blank_line(ls[0]))
    }
}

/// The lines joined with `'\n'`.
pub open spec fn join_lines(ls: Seq<Seq<char>>) -> Seq<char>
    decreases ls.len(),
{
    if ls.len() == 0 {
        Seq::empty()
    } else if ls.len() == 1 {
        ls[0]
    } else {
        join_lines(ls.drop_last()) + seq!['\n'] + ls.last()
    }
}

/// Readable text of an HTML page: tags removed, runs of blank lines
/// squeezed to one, lines joined with `'\n'`, then trimmed.
pub open spec fn readable_text(html: Seq<char>) -> Seq<char> {
    trim(join_lines(squeeze_blank_lines(lines(strip_tags(html, false)), false)))
}

/// Removes HTML tags and squeezes blank lines (see [`readable_text`]).
pub fn strip_html_tags(html: &str) -> (r: String)
    ensures
        r@ == readable_text(html@),
{
    let s = chars_of(html);
    let mut text: Vec<char> = Vec::new();
    let mut in_tag = false;
    let mut i: usize = 0;
    assert(s@.skip(0) == s@);
    while i < s.len()
        invariant
            i <= s@.len(),
            strip_tags(s@, false) == text@ + strip_tags(s@.skip(i as int), in_tag),
        decreases s.len() - i,
    {
        let c = s[i];
        assert(s@.skip(i as int)[0] == c);
        assert(s@.skip(i as int).drop_first() == s@.skip(i + 1));
        if c == '<' {
            in_tag = true;
        } else if c == '>' {
            in_tag = false;
        } else if !in_tag {
            let ghost before = text@;
            text.push(c);
            assert(before + (seq![c] + strip_tags(s@.skip(i + 1), false)) =~= text@ + strip_tags(
                s@.skip(i + 1),
                false,
            ));
        }
        i += 1;
    }
    assert(text@ + strip_tags(s@.skip(i as int), in_tag) =~= text@);
    let ls = lines_of(text.as_slice());
    let ghost lv = views(ls@);
    let mut kept: Vec<Vec<char>> = Vec::new();
    let mut prev_blank = false;
    let mut k: usize = 0;
    assert(lv.skip(0) == lv);
    while k < ls.len()
        invariant
            k <= ls@.len(),
            lv == views(ls@),
            squeeze_blank_lines(lv, false) == views(kept@) + squeeze_blank_lines(
                lv.skip(k as int),
                prev_blank,
            ),
        decreases ls.len() - k,
    {
        assert(lv.skip(k as int)[0] == ls@[k as int]@);
        assert(lv.skip(k as int).drop_first() == lv.skip(k + 1));
        let blank = is_blank(ls[k].as_slice());
        if !(blank && prev_blank) {
            let line = crate::text::slice_chars(ls[k].as_slice(), 0, ls[k].len());
            assert(line@ =~= ls@[k as int]@);
            let ghost before = views(kept@);
            kept.push(line);
            assert(views(kept@) =~= before.push(ls@[k as int]@));
            assert(before + (seq![ls@[k as int]@] + squeeze_blank_lines(lv.skip(k + 1), blank))
                =~= views(kept@) + squeeze_blank_lines(lv.skip(k + 1), blank));
            prev_blank = blank;
        }
        k += 1;
    }
    assert(views(kept@) + squeeze_blank_lines(lv.skip(k as int), prev_blank) =~= views(kept@));
    let mut joined: Vec<char> = Vec::new();
    let mut j: usize = 0;
    while j < kept.len()
        invariant
            j <= kept@.len(),
            joined@ == join_lines(views(kept@).take(j as int)),
        decreases kept.len() - j,
    {
        assert(views(kept@).take(j + 1).drop_last() == views(kept@).take(j as int));
        assert(views(kept@).take(j + 1).last() == kept@[j as int]@);
        if j > 0 {
            joined.push('\n');
        } else {
            assert(joined@ == Seq::<char>::empty());
        }
        push_all(&mut joined, kept[j].as_slice());
        j += 1;
    }
    assert(views(kept@).take(kept@.len() as int) == views(kept@));
    let t = trim_chars(joined.as_slice());
    string_of(t.as_slice())
}

/// The URL of the Jina Reader rendering of `url`.
pub fn jina_reader_url(url: &str) -> (r: String)
    ensures
        r@ == "https://r.jina.ai/"@ + url@,
{
    let mut v = chars_of("https://r.jina.ai/");
    push_str(&mut v, url);
    string_of(v.as_slice())
}

/// Why a style name is refused, if it is: empty after trimming, or it
/// contains a path separator (`/`, `\`) or NUL.
pub open spec fn style_name_problem(input: Seq<char>) -> Option<Seq<char>> {
    let s = trim(input);
    if s.len() == 0 {
        Some("名称不能为空"@)
    } else if contains_seq(s, seq!['/']) || contains_seq(s, seq!['\\']) || contains_seq(
        s,
        seq!['\0'],
    ) {
        Some("名称不能包含路径分隔符"@)
    } else {
        None
    }
}

/// Checks a name for a learned style: `Ok` with nothing, or the refusal.
pub fn validate_style_name(input: &str) -> (r: Result<(), String>)
    ensures
        match r {
            Ok(()) => style_name_problem(input@) is None,
            Err(m) => style_name_problem(input@) == Some(m@),
        },
{
    let s = trim_chars(chars_of(input).as_slice());
    if s.len() == 0 {
        return Err(string_of(chars_of("名称不能为空").as_slice()));
    }
    if contains_char(s.as_slice(), '/') || contains_char(s.as_slice(), '\\') || contains_char(
        s.as_slice(),
        '\0',
    ) {
        return Err(string_of(chars_of("名称不能包含路径分隔符").as_slice()));
    }
    Ok(())
}

/// The file a style named `name` is saved to: `styles/<trimmed name>.md`.
pub fn style_file_path(name: &str) -> (r: String)
    ensures
        r@ == "styles/"@ + trim(name@) + ".md"@,
{
    let mut v = chars_of("styles/");
    let t = trim_chars(chars_of(name).as_slice());
    push_all(&mut v, t.as_slice());
    push_str(&mut v, ".md");
    string_of(v.as_slice())
}

/// Where the style-extraction prompt is read from.
pub const LEARN_PROMPT_PATH: &'static str = "prompts/learn_style.md";

/// The style-extraction prompt, refused when it is blank.
pub fn check_learn_prompt(prompt: String) -> (r: Result<String, String>)
    ensures
        match r {
            Ok(p) => trim(prompt@).len() > 0 && p@ == prompt@,
            Err(m) => trim(prompt@).len() == 0 && m@ == "逆向风格提取提示词 `prompts/learn_style.md` 为空"@,
        },
{
    if is_blank(chars_of(prompt.as_str()).as_slice()) {
        return Err(string_of(chars_of("逆向风格提取提示词 `prompts/learn_style.md` 为空").as_slice()));
    }
    Ok(prompt)
}


// ── Fetching the article ─────────────────────────────────────────────

/// What became of the request to the Jina Reader.
pub enum ReaderOutcome {
    /// A successful answer with this body.
    Answered(String),
    /// An unsuccessful status, or no answer at all.
    Unavailable,
}

/// What to do with the Jina Reader's outcome.
pub enum ReaderStep {
    /// The article text.
    Text(String),
    /// Fetching failed with this message.
    Failed(String),
    /// Fetch the page directly and strip its tags.
    Fallback,
}

/// Decides on the Jina Reader's outcome: a non-blank answer is the text, a
/// blank one an error; without an answer, fall back to the page itself.
pub fn reader_step(outcome: ReaderOutcome) -> (r: ReaderStep)
    ensures
        match outcome {
            ReaderOutcome::Answered(t) => if trim(t@).len() == 0 {
                r matches ReaderStep::Failed(m) && m@ == "Jina Reader 返回空内容"@
            } else {
                r matches ReaderStep::Text(x) && x@ == t@
            },
            ReaderOutcome::Unavailable => r is Fallback,
        },
{
    match outcome {
        ReaderOutcome::Answered(t) => {
            if is_blank(chars_of(t.as_str()).as_slice()) {
                ReaderStep::Failed("Jina Reader 返回空内容".to_owned())
            } else {
                ReaderStep::Text(t)
            }
        },
        ReaderOutcome::Unavailable => ReaderStep::Fallback,
    }
}

/// The text of a page fetched directly: its readable text, refused when
/// empty.
pub fn fallback_text(html: &str) -> (r: Result<String, String>)
    ensures
        readable_text(html@).len() == 0 ==> (r matches Err(m) && m@ == "提取的正文内容为空"@),
        readable_text(html@).len() > 0 ==> (r matches Ok(t) && t@ == readable_text(html@)),
{
    let t = strip_html_tags(html);
    if chars_of(t.as_str()).len() == 0 {
        Err("提取的正文内容为空".to_owned())
    } else {
        Ok(t)
    }
}


// ── No tag survives ──────────────────────────────────────────────────

/// Whether `s` holds neither `<` nor `>`.
pub open spec fn free_of_brackets(s: Seq<char>) -> bool {
    forall|i: int| 0 <= i < s.len() ==> #[trigger] s[i] != '<' && s[i] != '>'
}

proof fn lemma_strip_tags_free(s: Seq<char>, in_tag: bool)
    ensures
        free_of_brackets(strip_tags(s, in_tag)),
    decreases s.len(),
{
    if s.len() > 0 {
        lemma_strip_tags_free(s.drop_first(), true);
        lemma_strip_tags_free(s.drop_first(), false);
        if s[0] != '<' && s[0] != '>' && !in_tag {
            let t = strip_tags(s.drop_first(), false);
            assert forall|i: int| 0 <= i < (seq![s[0]] + t).len() implies #[trigger] (seq![s[0]]
                + t)[i] != '<' && (seq![s[0]] + t)[i] != '>' by {
                if i > 0 {
                    assert((seq![s[0]] + t)[i] == t[i - 1]);
                }
            }
        }
    }
}

proof fn lemma_lines_free(s: Seq<char>)
    requires
        free_of_brackets(s),
    ensures
        forall|k: int| 0 <= k < lines(s).len() ==> free_of_brackets(#[trigger] lines(s)[k]),
    decreases s.len(),
{
    if s.len() > 0 {
        match first_index(s, seq!['\n']) {
            Some(i) => {
                lemma_first_index(s, seq!['\n']);
                let rest = s.skip(i + 1);
                assert(free_of_brackets(rest)) by {
                    assert forall|j: int| 0 <= j < rest.len() implies #[trigger] rest[j] != '<'
                        && rest[j] != '>' by {
                        assert(rest[j] == s[i + 1 + j]);
                    }
                }
                lemma_lines_free(rest);
                let first = strip_cr(s.take(i));
                assert(free_of_brackets(first)) by {
                    assert forall|j: int| 0 <= j < first.len() implies #[trigger] first[j] != '<'
                        && first[j] != '>' by {
                        assert(first[j] == s[j]);
                    }
                }
                let ls = seq![first] + lines(rest);
                assert forall|k: int| 0 <= k < ls.len() implies free_of_brackets(
                    #[trigger] ls[k],
                ) by {
                    if k > 0 {
                        assert(ls[k] == lines(rest)[k - 1]);
                    }
                }
            },
            None => {},
        }
    }
}

proof fn lemma_squeeze_free(ls: Seq<Seq<char>>, prev_blank: bool)
    requires
        forall|k: int| 0 <= k < ls.len() ==> free_of_brackets(#[trigger] ls[k]),
    ensures
        forall|k: int|
            0 <= k < squeeze_blank_lines(ls, prev_blank).len() ==> free_of_brackets(
                #[trigger] squeeze_blank_lines(ls, prev_blank)[k],
            ),
    decreases ls.len(),
{
    if ls.len() > 0 {
        let rest = ls.drop_first();
        assert forall|k: int| 0 <= k < rest.len() implies free_of_brackets(#[trigger] rest[k]) by {
            assert(rest[k] == ls[k + 1]);
        }
        lemma_squeeze_free(rest, prev_blank);
        lemma_squeeze_free(rest, blank_line(ls[0]));
        if !(blank_line(ls[0]) && prev_blank) {
            let out = seq![ls[0]] + squeeze_blank_lines(rest, blank_line(ls[0]));
            assert forall|k: int| 0 <= k < out.len() implies free_of_brackets(#[trigger] out[k]) by {
                if k > 0 {
                    assert(out[k] == squeeze_blank_lines(rest, blank_line(ls[0]))[k - 1]);
                } else {
                    assert(out[0] == ls[0]);
                }
            }
        }
    }
}

proof fn lemma_join_free(ls: Seq<Seq<char>>)
    requires
        forall|k: int| 0 <= k < ls.len() ==> free_of_brackets(#[trigger] ls[k]),
    ensures
        free_of_brackets(join_lines(ls)),
    decreases ls.len(),
{
    if ls.len() > 1 {
        let init = ls.drop_last();
        assert forall|k: int| 0 <= k < init.len() implies free_of_brackets(#[trigger] init[k]) by {
            assert(init[k] == ls[k]);
        }
        lemma_join_free(init);
        let a = join_lines(init);
        let b = ls.last();
        assert(free_of_brackets(b)) by {
            assert(b == ls[ls.len() - 1]);
        }
        let j = a + seq!['\n'] + b;
        assert forall|i: int| 0 <= i < j.len() implies #[trigger] j[i] != '<' && j[i] != '>' by {
            if i < a.len() {
                assert(j[i] == a[i]);
            } else if i == a.len() {
                assert(j[i] == '\n');
            } else {
                assert(j[i] == b[i - a.len() - 1]);
            }
        }
    } else if ls.len() == 1 {
        assert(free_of_brackets(ls[0]));
    }
}

proof fn lemma_trim_start_free(s: Seq<char>)
    requires
        free_of_brackets(s),
    ensures
        free_of_brackets(trim_start(s)),
    decreases s.len(),
{
    if s.len() > 0 && is_ws(s[0]) {
        let t = s.drop_first();
        assert forall|j: int| 0 <= j < t.len() implies #[trigger] t[j] != '<' && t[j] != '>' by {
            assert(t[j] == s[j + 1]);
        }
        lemma_trim_start_free(t);
    }
}

proof fn lemma_trim_end_free(s: Seq<char>)
    requires
        free_of_brackets(s),
    ensures
        free_of_brackets(trim_end(s)),
    decreases s.len(),
{
    if s.len() > 0 && is_ws(s.last()) {
        let t = s.drop_last();
        assert forall|j: int| 0 <= j < t.len() implies #[trigger] t[j] != '<' && t[j] != '>' by {
            assert(t[j] == s[j]);
        }
        lemma_trim_end_free(t);
    }
}

/// The readable text of a page holds no `<` or `>`: every tag is gone, and
/// so is any stray bracket.
pub proof fn law_readable_text_has_no_tags(html: Seq<char>)
    ensures
        free_of_brackets(readable_text(html)),
{
    let t = strip_tags(html, false);
    lemma_strip_tags_free(html, false);
    lemma_lines_free(t);
    lemma_squeeze_free(lines(t), false);
    lemma_join_free(squeeze_blank_lines(lines(t), false));
    let j = join_lines(squeeze_blank_lines(lines(t), false));
    lemma_trim_start_free(j);
    lemma_trim_end_free(trim_start(j));
}


// ── Blank lines are squeezed ─────────────────────────────────────────

/// Whether `s` holds no line break.
pub open spec fn one_line(s: Seq<char>) -> bool {
    forall|i: int| 0 <= i < s.len() ==> #[trigger] s[i] != '\n'
}

/// Whether no two neighbouring lines are both blank.
pub open spec fn no_blank_pair(ls: Seq<Seq<char>>) -> bool {
    forall|k: int| 0 <= k < ls.len() - 1 ==> !(blank_line(#[trigger] ls[k]) && blank_line(ls[k + 1]))
}

proof fn lemma_lines_one_line(s: Seq<char>)
    ensures
        forall|k: int| 0 <= k < lines(s).len() ==> one_line(#[trigger] lines(s)[k]),
    decreases s.len(),
{
    if s.len() > 0 {
        lemma_first_index(s, seq!['\n']);
        match first_index(s, seq!['\n']) {
            Some(i) => {
                let rest = s.skip(i + 1);
                lemma_lines_one_line(rest);
                let first = strip_cr(s.take(i));
                assert(one_line(first)) by {
                    assert forall|j: int| 0 <= j < first.len() implies #[trigger] first[j] != '\n' by {
                        assert(first[j] == s[j]);
                        if s[j] == '\n' {
                            assert(s.subrange(j, j + 1) =~= seq!['\n']);
                            assert(crate::text::occurs_at(s, seq!['\n'], j));
                        }
                    }
                }
                let ls = seq![first] + lines(rest);
                assert forall|k: int| 0 <= k < ls.len() implies one_line(#[trigger] ls[k]) by {
                    if k > 0 {
                        assert(ls[k] == lines(rest)[k - 1]);
                    }
                }
            },
            None => {
                assert(one_line(s)) by {
                    assert forall|j: int| 0 <= j < s.len() implies #[trigger] s[j] != '\n' by {
                        if s[j] == '\n' {
                            assert(s.subrange(j, j + 1) =~= seq!['\n']);
                            assert(crate::text::occurs_at(s, seq!['\n'], j));
                        }
                    }
                }
                assert(lines(s) =~= seq![s]);
            },
        }
    }
}

proof fn lemma_squeeze_shape(ls: Seq<Seq<char>>, prev_blank: bool)
    requires
        forall|k: int| 0 <= k < ls.len() ==> one_line(#[trigger] ls[k]),
    ensures
        forall|k: int|
            0 <= k < squeeze_blank_lines(ls, prev_blank).len() ==> one_line(
                #[trigger] squeeze_blank_lines(ls, prev_blank)[k],
            ),
        no_blank_pair(squeeze_blank_lines(ls, prev_blank)),
        prev_blank && squeeze_blank_lines(ls, prev_blank).len() > 0 ==> !blank_line(
            squeeze_blank_lines(ls, prev_blank)[0],
        ),
    decreases ls.len(),
{
    if ls.len() > 0 {
        let rest = ls.drop_first();
        assert forall|k: int| 0 <= k < rest.len() implies one_line(#[trigger] rest[k]) by {
            assert(rest[k] == ls[k + 1]);
        }
        lemma_squeeze_shape(rest, prev_blank);
        let b = blank_line(ls[0]);
        lemma_squeeze_shape(rest, b);
        if !(b && prev_blank) {
            let tail = squeeze_blank_lines(rest, b);
            let out = seq![ls[0]] + tail;
            assert forall|k: int| 0 <= k < out.len() implies one_line(#[trigger] out[k]) by {
                if k > 0 {
                    assert(out[k] == tail[k - 1]);
                }
            }
            assert forall|k: int| 0 <= k < out.len() - 1 implies !(blank_line(#[trigger] out[k])
                && blank_line(out[k + 1])) by {
                assert(out[k + 1] == tail[k]);
                if k > 0 {
                    assert(out[k] == tail[k - 1]);
                }
            }
        }
    }
}

/// What the end of joined lines looks like: a final line break means the
/// last line is empty and there are at least two lines; three line breaks
/// in a row never occur.
proof fn lemma_join_shape(ls: Seq<Seq<char>>)
    requires
        forall|k: int| 0 <= k < ls.len() ==> one_line(#[trigger] ls[k]),
        no_blank_pair(ls),
    ensures
        !contains_seq(join_lines(ls), "\n\n\n"@),
        join_lines(ls).len() > 0 && join_lines(ls).last() == '\n' ==> ls.len() >= 2
            && ls.last().len() == 0,
    decreases ls.len(),
{
    reveal_strlit("\n\n\n");
    let j = join_lines(ls);
    if ls.len() == 1 {
        assert(one_line(ls[0]));
        if contains_seq(j, "\n\n\n"@) {
            let p = choose|p: int| crate::text::occurs_at(j, "\n\n\n"@, p);
            assert(j.subrange(p, p + 3)[0] == j[p]);
        }
    } else if ls.len() > 1 {
        let init = ls.drop_last();
        assert forall|k: int| 0 <= k < init.len() implies one_line(#[trigger] init[k]) by {
            assert(init[k] == ls[k]);
        }
        assert forall|k: int| 0 <= k < init.len() - 1 implies !(blank_line(#[trigger] init[k])
            && blank_line(init[k + 1])) by {
            assert(init[k] == ls[k] && init[k + 1] == ls[k + 1]);
        }
        lemma_join_shape(init);
        let a = join_lines(init);
        let b = ls.last();
        assert(one_line(b)) by {
            assert(b == ls[ls.len() - 1]);
        }
        assert(j == a + seq!['\n'] + b);
        if b.len() > 0 {
            assert(j.last() == b.last());
            assert(b.last() == b[b.len() - 1]);
        }
        if contains_seq(j, "\n\n\n"@) {
            let p = choose|p: int| crate::text::occurs_at(j, "\n\n\n"@, p);
            let w = j.subrange(p, p + 3);
            assert(w[0] == j[p] && w[1] == j[p + 1] && w[2] == j[p + 2]);
            if p + 3 <= a.len() {
                assert(a.subrange(p, p + 3) =~= w);
                assert(crate::text::occurs_at(a, "\n\n\n"@, p));
            } else if p > a.len() {
                assert(j[p] == b[p - a.len() - 1]);
            } else if p == a.len() {
                assert(j[p] == '\n');
                assert(j[p + 1] == b[0]);
            } else {
                // The break before `b` ends the run, so `a` ends with two.
                if p == a.len() - 1 {
                    assert(j[p + 2] == b[0]);
                } else {
                    assert(p == a.len() - 2);
                    assert(a.last() == j[p + 1]);
                    assert(init.last().len() == 0);
                    let a2 = join_lines(init.drop_last());
                    assert(init.len() >= 2);
                    assert(a == a2 + seq!['\n'] + init.last());
                    assert(a.len() == a2.len() + 1);
                    assert(a2.len() > 0);
                    assert(a2.last() == j[p]);
                    let init2 = init.drop_last();
                    assert forall|k: int| 0 <= k < init2.len() implies one_line(
                        #[trigger] init2[k],
                    ) by {
                        assert(init2[k] == ls[k]);
                    }
                    assert forall|k: int| 0 <= k < init2.len() - 1 implies !(blank_line(
                        #[trigger] init2[k],
                    ) && blank_line(init2[k + 1])) by {
                        assert(init2[k] == ls[k] && init2[k + 1] == ls[k + 1]);
                    }
                    lemma_join_shape(init2);
                    assert(init2.last().len() == 0);
                    let k = ls.len() - 3;
                    assert(ls[k] == init2.last());
                    assert(ls[k + 1] == init.last());
                    assert(trim(ls[k]).len() == 0);
                    assert(trim(ls[k + 1]).len() == 0);
                }
            }
        }
    }
}

proof fn lemma_trim_start_is_suffix(s: Seq<char>)
    ensures
        exists|k: int| 0 <= k <= s.len() && trim_start(s) == s.skip(k),
    decreases s.len(),
{
    if s.len() > 0 && is_ws(s[0]) {
        lemma_trim_start_is_suffix(s.drop_first());
        let k = choose|k: int|
            0 <= k <= s.drop_first().len() && trim_start(s.drop_first()) == s.drop_first().skip(k);
        assert(s.drop_first().skip(k) =~= s.skip(k + 1));
    } else {
        assert(s.skip(0) =~= s);
    }
}

proof fn lemma_trim_end_is_prefix(s: Seq<char>)
    ensures
        exists|k: int| 0 <= k <= s.len() && trim_end(s) == s.take(k),
    decreases s.len(),
{
    if s.len() > 0 && is_ws(s.last()) {
        lemma_trim_end_is_prefix(s.drop_last());
        let k = choose|k: int|
            0 <= k <= s.drop_last().len() && trim_end(s.drop_last()) == s.drop_last().take(k);
        assert(s.drop_last().take(k) =~= s.take(k));
    } else {
        assert(s.take(s.len() as int) =~= s);
    }
}

/// The readable text of a page never has more than one blank line in a
/// row: three line breaks never follow each other.
pub proof fn law_readable_text_squeezes_blank_lines(html: Seq<char>)
    ensures
        !contains_seq(readable_text(html), "\n\n\n"@),
{
    reveal_strlit("\n\n\n");
    let t = strip_tags(html, false);
    lemma_lines_one_line(t);
    lemma_squeeze_shape(lines(t), false);
    let ls = squeeze_blank_lines(lines(t), false);
    lemma_join_shape(ls);
    let j = join_lines(ls);
    lemma_trim_start_is_suffix(j);
    let a = choose|a: int| 0 <= a <= j.len() && trim_start(j) == j.skip(a);
    lemma_trim_end_is_prefix(trim_start(j));
    let b = choose|b: int|
        0 <= b <= trim_start(j).len() && trim_end(trim_start(j)) == trim_start(j).take(b);
    let r = readable_text(html);
    assert(r == j.skip(a).take(b));
    if contains_seq(r, "\n\n\n"@) {
        let p = choose|p: int| crate::text::occurs_at(r, "\n\n\n"@, p);
        assert(r.subrange(p, p + 3) =~= j.subrange(a + p, a + p + 3));
        assert(crate::text::occurs_at(j, "\n\n\n"@, a + p));
    }
}

} // verus!
