//! The style library: descriptions, matching a style to a request, and the
//! sorted listing.

use vstd::prelude::*;
use crate::error::AppError;
use crate::text::{
    chars_of, contains_seq, contains_str, lines, lines_of, push_str, slice_chars, starts_with,
    starts_with_chars, string_of, trim, trim_chars, views, contains_chars,
};

verus! {

broadcast use vstd::string::group_string_axioms;

/// One style of the library, as listed.
pub struct StyleSummary {
    /// File name, e.g. `qingbian.md`.
    pub filename: String,
    /// Name without the extension, e.g. `qingbian`.
    pub display_name: String,
    /// One-line description (see [`description_of`]).
    pub description: String,
}

/// Whether `c` ends a sentence (`。`, `！`, `？`).
pub open spec fn sentence_end(c: char) -> bool {
    c == '。' || c == '！' || c == '？'
}

/// Index just after the first sentence end of `t` at or after `i`, or `len`.
pub open spec fn first_sentence_len(t: Seq<char>, i: int) -> int
    decreases t.len() - i,
{
    if i < 0 || i >= t.len() {
        t.len() as int
    } else if sentence_end(t[i]) {
        i + 1
    } else {
        first_sentence_len(t, i + 1)
    }
}

/// The first line that is neither blank nor a heading, trimmed.
pub open spec fn first_plain_line(ls: Seq<Seq<char>>) -> Option<Seq<char>>
    decreases ls.len(),
{
    if ls.len() == 0 {
        None
    } else if trim(ls[0]).len() == 0 || starts_with(trim(ls[0]), "#"@) {
        first_plain_line(ls.drop_first())
    } else {
        Some(trim(ls[0]))
    }
}

/// The description of a style file: the first sentence of its first plain
/// line, cut to 120 characters followed by `...` when longer; empty when
/// there is no plain line.
pub open spec fn description_of(content: Seq<char>) -> Seq<char> {
    match first_plain_line(lines(content)) {
        Some(t) => {
            let desc = t.take(first_sentence_len(t, 0));
            if desc.len() > 120 {
                desc.take(120) + "..."@
            } else {
                desc
            }
        },
        None => Seq::empty(),
    }
}

proof fn lemma_first_sentence_len(t: Seq<char>, i: int)
    requires
        0 <= i <= t.len(),
    ensures
        i <= first_sentence_len(t, i) <= t.len(),
    decreases t.len() - i,
{
    if i < t.len() && !sentence_end(t[i]) {
        lemma_first_sentence_len(t, i + 1);
    }
}

/// The description of a style file (see [`description_of`]).
pub fn extract_description(content: &str) -> (r: String)
    ensures
        r@ == description_of(content@),
{
    let s = chars_of(content);
    let ls = lines_of(s.as_slice());
    let ghost lv = views(ls@);
    let hash = chars_of("#");
    let mut i: usize = 0;
    assert(lv.skip(0) == lv);
    while i < ls.len()
        invariant
            i <= ls@.len(),
            lv == views(ls@),
            lv == lines(content@),
            hash@ == "#"@,
            first_plain_line(lv) == first_plain_line(lv.skip(i as int)),
        decreases ls.len() - i,
    {
        assert(lv.skip(i as int)[0] == ls@[i as int]@);
        assert(lv.skip(i as int).drop_first() == lv.skip(i + 1));
        let t = trim_chars(ls[i].as_slice());
        if t.len() == 0 || starts_with_chars(t.as_slice(), hash.as_slice()) {
            i += 1;
        } else {
            let mut e: usize = 0;
            while e < t.len() && !(t[e] == '。' || t[e] == '！' || t[e] == '？')
                invariant
                    e <= t@.len(),
                    first_sentence_len(t@, 0) == first_sentence_len(t@, e as int),
                decreases t.len() - e,
            {
                e += 1;
            }
            let end = if e < t.len() { e + 1 } else { e };
            let desc = slice_chars(t.as_slice(), 0, end);
            assert(desc@ == t@.take(first_sentence_len(t@, 0)));
            if desc.len() > 120 {
                let mut out = slice_chars(desc.as_slice(), 0, 120);
                assert(out@ == desc@.take(120));
                push_str(&mut out, "...");
                return string_of(out.as_slice());
            }
            return string_of(desc.as_slice());
        }
    }
    assert(lv.skip(i as int).len() == 0);
    string_of(Vec::<char>::new().as_slice())
}

/// Whether the request refers to the latest style ("刚学", "最近", "上次").
pub open spec fn recent_query(q: Seq<char>) -> bool {
    contains_seq(q, "刚学"@) || contains_seq(q, "最近"@) || contains_seq(q, "上次"@)
}

/// Whether the request refers to the latest style ("刚学", "最近", "上次").
pub fn is_recent_query(query: &str) -> (r: bool)
    ensures
        r == recent_query(query@),
{
    let q = chars_of(query);
    contains_str(q.as_slice(), "刚学") || contains_str(q.as_slice(), "最近") || contains_str(
        q.as_slice(),
        "上次",
    )
}

/// The index of the newest entry: the first one whose modification time is
/// the greatest.
pub fn newest_index(times: &Vec<u128>) -> (r: Option<usize>)
    ensures
        r is None <==> times@.len() == 0,
        r matches Some(k) ==> k < times@.len() && (forall|j: int|
            0 <= j < times@.len() ==> times@[j] <= times@[k as int]) && (forall|j: int|
            0 <= j < k ==> times@[j] < times@[k as int]),
{
    if times.len() == 0 {
        return None;
    }
    let mut best: usize = 0;
    let mut i: usize = 1;
    while i < times.len()
        invariant
            1 <= i <= times@.len(),
            best < i,
            forall|j: int| 0 <= j < i ==> times@[j] <= times@[best as int],
            forall|j: int| 0 <= j < best ==> times@[j] < times@[best as int],
        decreases times.len() - i,
    {
        if times[i] > times[best] {
            best = i;
        }
        i += 1;
    }
    Some(best)
}

/// The error for a style directory without `.md` files.
pub fn no_styles_error(styles_dir: &str) -> (e: AppError)
    ensures
        e matches AppError::NoStyles(m) && m@ == styles_dir@ + " 目录下没有 .md 风格文件"@,
{
    let mut v = chars_of(styles_dir);
    push_str(&mut v, " 目录下没有 .md 风格文件");
    AppError::NoStyles(string_of(v.as_slice()))
}

/// The newest style among `(display name, modification time, content)`
/// entries (the first of the newest ones); `NoStyles` when there is none.
pub fn pick_most_recent(styles_dir: &str, entries: Vec<(String, u128, String)>) -> (r: Result<
    (String, String),
    AppError,
>)
    ensures
        entries@.len() == 0 ==> (r matches Err(AppError::NoStyles(m)) && m@ == styles_dir@
            + " 目录下没有 .md 风格文件"@),
        entries@.len() > 0 ==> (r matches Ok((name, content)) && exists|k: int|
            0 <= k < entries@.len() && name@ == entries@[k].0@ && content@ == entries@[k].2@
                && (forall|j: int| 0 <= j < entries@.len() ==> entries@[j].1 <= entries@[k].1)
                && (forall|j: int| 0 <= j < k ==> entries@[j].1 < entries@[k].1)),
{
    let mut times: Vec<u128> = Vec::new();
    let mut i: usize = 0;
    while i < entries.len()
        invariant
            i <= entries@.len(),
            times@.len() == i,
            forall|j: int| 0 <= j < i ==> times@[j] == entries@[j].1,
        decreases entries.len() - i,
    {
        times.push(entries[i].1);
        i += 1;
    }
    match newest_index(&times) {
        None => Err(no_styles_error(styles_dir)),
        Some(k) => {
            proof {
                assert(times@[k as int] == entries@[k as int].1);
                assert forall|j: int| 0 <= j < entries@.len() implies entries@[j].1
                    <= entries@[k as int].1 by {
                    assert(times@[j] == entries@[j].1);
                }
                assert forall|j: int| 0 <= j < k implies entries@[j].1 < entries@[k as int].1 by {
                    assert(times@[j] == entries@[j].1);
                }
            }
            let name = string_of(chars_of(entries[k].0.as_str()).as_slice());
            let content = string_of(chars_of(entries[k].2.as_str()).as_slice());
            Ok((name, content))
        },
    }
}

/// Whether the first 200 characters of a style file contain the request.
pub open spec fn preview_matches(content: Seq<char>, query: Seq<char>) -> bool {
    contains_seq(content.take(if content.len() < 200 { content.len() as int } else { 200 }), query)
}

/// The first style whose preview contains the request, scanning
/// `(display name, content or read-error message)` entries in order; the
/// first unreadable file met before a match is an error.
pub open spec fn content_match(
    entries: Seq<(Seq<char>, Result<Seq<char>, Seq<char>>)>,
    query: Seq<char>,
) -> Result<(Seq<char>, Seq<char>), AppErrorModel>
    decreases entries.len(),
{
    if entries.len() == 0 {
        Err(AppErrorModel::NoStyles("未找到匹配 '"@ + query + "' 的风格文件"@))
    } else {
        match entries[0].1 {
            Err(m) => Err(AppErrorModel::FileRead(m)),
            Ok(c) => if preview_matches(c, query) {
                Ok((entries[0].0, c))
            } else {
                content_match(entries.drop_first(), query)
            },
        }
    }
}

/// The text-carrying errors of style matching, as values.
pub enum AppErrorModel {
    FileRead(Seq<char>),
    NoStyles(Seq<char>),
}

/// The view of a style-matching result.
pub open spec fn match_view(r: Result<(String, String), AppError>) -> Option<
    Result<(Seq<char>, Seq<char>), AppErrorModel>,
> {
    match r {
        Ok((a, b)) => Some(Ok((a@, b@))),
        Err(AppError::FileRead(m)) => Some(Err(AppErrorModel::FileRead(m@))),
        Err(AppError::NoStyles(m)) => Some(Err(AppErrorModel::NoStyles(m@))),
        Err(_) => None,
    }
}

/// The views of style entries.
pub open spec fn entry_views(es: Seq<(String, Result<String, String>)>) -> Seq<
    (Seq<char>, Result<Seq<char>, Seq<char>>),
> {
    es.map_values(
        |e: (String, Result<String, String>)|
            (
                e.0@,
                match e.1 {
                    Ok(c) => Ok(c@),
                    Err(m) => Err(m@),
                },
            ),
    )
}

/// Whether the first 200 characters of `content` contain `query`.
pub fn preview_contains(content: &str, query: &str) -> (r: bool)
    ensures
        r == preview_matches(content@, query@),
{
    let c = chars_of(content);
    let n = if c.len() < 200 { c.len() } else { 200 };
    let p = slice_chars(c.as_slice(), 0, n);
    assert(p@ == c@.take(n as int));
    contains_chars(p.as_slice(), chars_of(query).as_slice())
}

/// The first style whose preview contains the request (see [`content_match`]).
pub fn first_content_match(query: &str, entries: &Vec<(String, Result<String, String>)>) -> (r:
    Result<(String, String), AppError>)
    ensures
        match_view(r) == Some(content_match(entry_views(entries@), query@)),
{
    let ghost ev = entry_views(entries@);
    let mut i: usize = 0;
    assert(ev.skip(0) == ev);
    while i < entries.len()
        invariant
            i <= entries@.len(),
            ev == entry_views(entries@),
            content_match(ev, query@) == content_match(ev.skip(i as int), query@),
        decreases entries.len() - i,
    {
        assert(ev.skip(i as int)[0] == ev[i as int]);
        assert(ev.skip(i as int).drop_first() == ev.skip(i + 1));
        match &entries[i].1 {
            Err(m) => {
                return Err(AppError::FileRead(string_of(chars_of(m.as_str()).as_slice())));
            },
            Ok(c) => {
                if preview_contains(c.as_str(), query) {
                    let name = string_of(chars_of(entries[i].0.as_str()).as_slice());
                    let content = string_of(chars_of(c.as_str()).as_slice());
                    return Ok((name, content));
                }
            },
        }
        i += 1;
    }
    assert(ev.skip(i as int).len() == 0);
    let mut v = chars_of("未找到匹配 '");
    push_str(&mut v, query);
    push_str(&mut v, "' 的风格文件");
    Err(AppError::NoStyles(string_of(v.as_slice())))
}


/// `a` comes strictly before `b` in code-point lexicographic order (the
/// order of `String`).
pub open spec fn lex_lt(a: Seq<char>, b: Seq<char>) -> bool
    decreases a.len(),
{
    if a.len() == 0 {
        b.len() > 0
    } else if b.len() == 0 {
        false
    } else if a[0] != b[0] {
        (a[0] as u32) < (b[0] as u32)
    } else {
        lex_lt(a.drop_first(), b.drop_first())
    }
}

/// Whether `a < b` in code-point lexicographic order.
pub fn lex_less(a: &[char], b: &[char]) -> (r: bool)
    ensures
        r == lex_lt(a@, b@),
{
    let mut i: usize = 0;
    assert(a@.skip(0) == a@ && b@.skip(0) == b@);
    loop
        invariant
            i <= a@.len(),
            i <= b@.len(),
            lex_lt(a@, b@) == lex_lt(a@.skip(i as int), b@.skip(i as int)),
        decreases a.len() - i,
    {
        if i == a.len() {
            return i < b.len();
        }
        if i == b.len() {
            return false;
        }
        if a[i] != b[i] {
            return (a[i] as u32) < (b[i] as u32);
        }
        assert(a@.skip(i as int).drop_first() == a@.skip(i + 1));
        assert(b@.skip(i as int).drop_first() == b@.skip(i + 1));
        i += 1;
    }
}

/// A style summary as values: (file name, display name, description).
pub open spec fn summary_view(s: StyleSummary) -> (Seq<char>, Seq<char>, Seq<char>) {
    (s.filename@, s.display_name@, s.description@)
}

/// The views of summaries.
pub open spec fn summary_views(ss: Seq<StyleSummary>) -> Seq<(Seq<char>, Seq<char>, Seq<char>)> {
    ss.map_values(|s: StyleSummary| summary_view(s))
}

/// Where `x` goes in `sorted` (searching from `i`): before the first entry
/// whose display name is greater than `x`'s.
pub open spec fn insert_pos(
    sorted: Seq<(Seq<char>, Seq<char>, Seq<char>)>,
    x: (Seq<char>, Seq<char>, Seq<char>),
    i: int,
) -> int
    decreases sorted.len() - i,
{
    if i < 0 || i >= sorted.len() {
        sorted.len() as int
    } else if lex_lt(x.1, sorted[i].1) {
        i
    } else {
        insert_pos(sorted, x, i + 1)
    }
}

/// `xs` stably sorted by display name (what `sort_by` on the display
/// names gives): each entry inserted, in order, after the entries whose
/// names are not greater.
pub open spec fn sorted_by_name(xs: Seq<(Seq<char>, Seq<char>, Seq<char>)>) -> Seq<
    (Seq<char>, Seq<char>, Seq<char>),
>
    decreases xs.len(),
{
    if xs.len() == 0 {
        Seq::empty()
    } else {
        let sorted = sorted_by_name(xs.drop_last());
        sorted.insert(insert_pos(sorted, xs.last(), 0), xs.last())
    }
}

proof fn lemma_insert_pos(
    sorted: Seq<(Seq<char>, Seq<char>, Seq<char>)>,
    x: (Seq<char>, Seq<char>, Seq<char>),
    i: int,
)
    requires
        0 <= i <= sorted.len(),
    ensures
        i <= insert_pos(sorted, x, i) <= sorted.len(),
    decreases sorted.len() - i,
{
    if i < sorted.len() && !lex_lt(x.1, sorted[i].1) {
        lemma_insert_pos(sorted, x, i + 1);
    }
}

/// The listing of a style directory, from `(file name, display name,
/// content or read-error message)` entries of its `.md` files: the first
/// unreadable file is an error, no file is `NoStyles`; otherwise each
/// style with its description, stably sorted by display name.
pub open spec fn listing(
    styles_dir: Seq<char>,
    entries: Seq<(Seq<char>, Seq<char>, Result<Seq<char>, Seq<char>>)>,
) -> Result<Seq<(Seq<char>, Seq<char>, Seq<char>)>, AppErrorModel> {
    if exists|i: int| 0 <= i < entries.len() && entries[i].2 is Err {
        let i = choose|i: int|
            0 <= i < entries.len() && entries[i].2 is Err && forall|j: int|
                0 <= j < i ==> entries[j].2 is Ok;
        Err(AppErrorModel::FileRead(entries[i].2->Err_0))
    } else if entries.len() == 0 {
        Err(AppErrorModel::NoStyles(styles_dir + " 目录下没有 .md 风格文件"@))
    } else {
        Ok(
            sorted_by_name(
                entries.map_values(
                    |e: (Seq<char>, Seq<char>, Result<Seq<char>, Seq<char>>)|
                        (e.0, e.1, description_of(e.2->Ok_0)),
                ),
            ),
        )
    }
}

/// The views of listing entries.
pub open spec fn listing_entry_views(es: Seq<(String, String, Result<String, String>)>) -> Seq<
    (Seq<char>, Seq<char>, Result<Seq<char>, Seq<char>>),
> {
    es.map_values(
        |e: (String, String, Result<String, String>)|
            (
                e.0@,
                e.1@,
                match e.2 {
                    Ok(c) => Ok(c@),
                    Err(m) => Err(m@),
                },
            ),
    )
}

/// The view of a listing result.
pub open spec fn listing_view(r: Result<Vec<StyleSummary>, AppError>) -> Option<
    Result<Seq<(Seq<char>, Seq<char>, Seq<char>)>, AppErrorModel>,
> {
    match r {
        Ok(v) => Some(Ok(summary_views(v@))),
        Err(AppError::FileRead(m)) => Some(Err(AppErrorModel::FileRead(m@))),
        Err(AppError::NoStyles(m)) => Some(Err(AppErrorModel::NoStyles(m@))),
        Err(_) => None,
    }
}

fn copy_string(s: &String) -> (r: String)
    ensures
        r@ == s@,
{
    string_of(chars_of(s.as_str()).as_slice())
}

/// The listing of a style directory (see [`listing`]).
pub fn style_summaries(styles_dir: &str, entries: &Vec<(String, String, Result<String, String>)>) -> (r:
    Result<Vec<StyleSummary>, AppError>)
    ensures
        listing_view(r) == Some(listing(styles_dir@, listing_entry_views(entries@))),
{
    let ghost ev = listing_entry_views(entries@);
    let ghost described = ev.map_values(
        |e: (Seq<char>, Seq<char>, Result<Seq<char>, Seq<char>>)|
            (e.0, e.1, description_of(e.2->Ok_0)),
    );
    let mut sorted: Vec<StyleSummary> = Vec::new();
    let mut i: usize = 0;
    while i < entries.len()
        invariant
            i <= entries@.len(),
            ev == listing_entry_views(entries@),
            described == ev.map_values(
                |e: (Seq<char>, Seq<char>, Result<Seq<char>, Seq<char>>)|
                    (e.0, e.1, description_of(e.2->Ok_0)),
            ),
            forall|j: int| 0 <= j < i ==> ev[j].2 is Ok,
            summary_views(sorted@) == sorted_by_name(described.take(i as int)),
        decreases entries.len() - i,
    {
        let content = match &entries[i].2 {
            Ok(c) => c,
            Err(m) => {
                proof {
                    assert(ev[i as int].2 is Err);
                    let k = choose|k: int|
                        0 <= k < ev.len() && ev[k].2 is Err && forall|j: int|
                            0 <= j < k ==> ev[j].2 is Ok;
                    if k < i {
                        assert(ev[k].2 is Ok);
                    }
                    if k > i {
                        assert(ev[i as int].2 is Ok);
                    }
                }
                return Err(AppError::FileRead(copy_string(m)));
            },
        };
        let item = StyleSummary {
            filename: copy_string(&entries[i].0),
            display_name: copy_string(&entries[i].1),
            description: extract_description(content.as_str()),
        };
        let ghost x = summary_view(item);
        assert(x == described[i as int]);
        let ghost before = summary_views(sorted@);
        let mut p: usize = 0;
        while p < sorted.len() && !lex_less(
            chars_of(item.display_name.as_str()).as_slice(),
            chars_of(sorted[p].display_name.as_str()).as_slice(),
        )
            invariant
                p <= sorted@.len(),
                before == summary_views(sorted@),
                x == summary_view(item),
                insert_pos(before, x, 0) == insert_pos(before, x, p as int),
            decreases sorted.len() - p,
        {
            p += 1;
        }
        proof {
            lemma_insert_pos(before, x, 0);
        }
        sorted.insert(p, item);
        assert(summary_views(sorted@) =~= before.insert(p as int, x));
        assert(described.take(i + 1).drop_last() == described.take(i as int));
        assert(described.take(i + 1).last() == x);
        i += 1;
    }
    assert(described.take(i as int) == described);
    if sorted.len() == 0 {
        return Err(no_styles_error(styles_dir));
    }
    Ok(sorted)
}


/// A style's description is one line of at most 120 characters, plus
/// `...` when it was cut.
pub proof fn law_description_is_short(content: Seq<char>)
    ensures
        description_of(content).len() <= 123,
{
    reveal_strlit("...");
    match first_plain_line(lines(content)) {
        Some(t) => {
            lemma_first_sentence_len(t, 0);
        },
        None => {},
    }
}


/// Whether a line of a style file is plain text: neither blank nor a
/// heading.
pub open spec fn is_plain_line(l: Seq<char>) -> bool {
    trim(l).len() > 0 && !starts_with(trim(l), "#"@)
}

proof fn lemma_first_plain_line_at(ls: Seq<Seq<char>>, k: int)
    requires
        0 <= k < ls.len(),
        is_plain_line(ls[k]),
        forall|j: int| 0 <= j < k ==> !is_plain_line(#[trigger] ls[j]),
    ensures
        first_plain_line(ls) == Some(trim(ls[k])),
    decreases k,
{
    if k > 0 {
        assert(!is_plain_line(ls[0]));
        let rest = ls.drop_first();
        assert forall|j: int| 0 <= j < k - 1 implies !is_plain_line(#[trigger] rest[j]) by {
            assert(rest[j] == ls[j + 1]);
        }
        assert(rest[k - 1] == ls[k]);
        lemma_first_plain_line_at(rest, k - 1);
    }
}

proof fn lemma_no_plain_line(ls: Seq<Seq<char>>)
    requires
        forall|j: int| 0 <= j < ls.len() ==> !is_plain_line(#[trigger] ls[j]),
    ensures
        first_plain_line(ls) is None,
    decreases ls.len(),
{
    if ls.len() > 0 {
        assert(!is_plain_line(ls[0]));
        let rest = ls.drop_first();
        assert forall|j: int| 0 <= j < rest.len() implies !is_plain_line(#[trigger] rest[j]) by {
            assert(rest[j] == ls[j + 1]);
        }
        lemma_no_plain_line(rest);
    }
}

proof fn lemma_first_sentence_end_at(t: Seq<char>, i: int, m: int)
    requires
        0 <= i <= m < t.len(),
        sentence_end(t[m]),
        forall|q: int| i <= q < m ==> !sentence_end(#[trigger] t[q]),
    ensures
        first_sentence_len(t, i) == m + 1,
    decreases m - i,
{
    if i < m {
        lemma_first_sentence_end_at(t, i + 1, m);
    }
}

proof fn lemma_no_sentence_end(t: Seq<char>, i: int)
    requires
        0 <= i <= t.len(),
        forall|q: int| i <= q < t.len() ==> !sentence_end(#[trigger] t[q]),
    ensures
        first_sentence_len(t, i) == t.len(),
    decreases t.len() - i,
{
    if i < t.len() {
        lemma_no_sentence_end(t, i + 1);
    }
}

/// Where a style's description comes from: the earliest plain line (every
/// line before it is blank or a heading), trimmed, up to and including its
/// first `。`, `！` or `？` (all of it when it has none); cut to 120
/// characters followed by `...` when longer.  No plain line, no
/// description.
pub proof fn law_description_source(content: Seq<char>)
    ensures
        forall|k: int, m: int|
            #![trigger lines(content)[k], trim(lines(content)[k])[m]]
            0 <= k < lines(content).len() && is_plain_line(lines(content)[k]) && (forall|j: int|
                0 <= j < k ==> !is_plain_line(#[trigger] lines(content)[j])) && 0 <= m < trim(
                lines(content)[k],
            ).len() && sentence_end(trim(lines(content)[k])[m]) && (forall|q: int|
                0 <= q < m ==> !sentence_end(#[trigger] trim(lines(content)[k])[q])) ==> ({
                let d = trim(lines(content)[k]).take(m + 1);
                description_of(content) == if d.len() > 120 {
                    d.take(120) + "..."@
                } else {
                    d
                }
            }),
        forall|k: int|
            #![trigger lines(content)[k]]
            0 <= k < lines(content).len() && is_plain_line(lines(content)[k]) && (forall|j: int|
                0 <= j < k ==> !is_plain_line(#[trigger] lines(content)[j])) && (forall|q: int|
                0 <= q < trim(lines(content)[k]).len() ==> !sentence_end(
                    #[trigger] trim(lines(content)[k])[q],
                )) ==> ({
                let d = trim(lines(content)[k]);
                description_of(content) == if d.len() > 120 {
                    d.take(120) + "..."@
                } else {
                    d
                }
            }),
        (forall|j: int| 0 <= j < lines(content).len() ==> !is_plain_line(#[trigger] lines(content)[j]))
            ==> description_of(content).len() == 0,
{
    let ls = lines(content);
    assert forall|k: int, m: int|
        #![trigger ls[k], trim(ls[k])[m]]
        0 <= k < ls.len() && is_plain_line(ls[k]) && (forall|j: int|
            0 <= j < k ==> !is_plain_line(#[trigger] ls[j])) && 0 <= m < trim(ls[k]).len()
            && sentence_end(trim(ls[k])[m]) && (forall|q: int|
            0 <= q < m ==> !sentence_end(#[trigger] trim(ls[k])[q])) implies ({
        let d = trim(ls[k]).take(m + 1);
        description_of(content) == if d.len() > 120 {
            d.take(120) + "..."@
        } else {
            d
        }
    }) by {
        lemma_first_plain_line_at(ls, k);
        lemma_first_sentence_end_at(trim(ls[k]), 0, m);
    }
    assert forall|k: int|
        #![trigger ls[k]]
        0 <= k < ls.len() && is_plain_line(ls[k]) && (forall|j: int|
            0 <= j < k ==> !is_plain_line(#[trigger] ls[j])) && (forall|q: int|
            0 <= q < trim(ls[k]).len() ==> !sentence_end(#[trigger] trim(ls[k])[q])) implies ({
        let d = trim(ls[k]);
        description_of(content) == if d.len() > 120 {
            d.take(120) + "..."@
        } else {
            d
        }
    }) by {
        lemma_first_plain_line_at(ls, k);
        lemma_no_sentence_end(trim(ls[k]), 0);
        assert(trim(ls[k]).take(trim(ls[k]).len() as int) =~= trim(ls[k]));
    }
    if forall|j: int| 0 <= j < ls.len() ==> !is_plain_line(#[trigger] ls[j]) {
        lemma_no_plain_line(ls);
    }
}

// ── The listing is sorted ────────────────────────────────────────────

/// `lex_lt` is irreflexive.
pub proof fn lemma_lex_irreflexive(a: Seq<char>)
    ensures
        !lex_lt(a, a),
    decreases a.len(),
{
    if a.len() > 0 {
        lemma_lex_irreflexive(a.drop_first());
    }
}

/// `lex_lt` is transitive.
pub proof fn lemma_lex_transitive(a: Seq<char>, b: Seq<char>, c: Seq<char>)
    requires
        lex_lt(a, b),
        lex_lt(b, c),
    ensures
        lex_lt(a, c),
    decreases a.len(),
{
    if a.len() > 0 && b.len() > 0 && c.len() > 0 && a[0] == b[0] && b[0] == c[0] {
        lemma_lex_transitive(a.drop_first(), b.drop_first(), c.drop_first());
    }
}

/// Two different sequences are ordered one way or the other.
pub proof fn lemma_lex_total(a: Seq<char>, b: Seq<char>)
    requires
        a != b,
    ensures
        lex_lt(a, b) || lex_lt(b, a),
    decreases a.len(),
{
    if a.len() > 0 && b.len() > 0 && a[0] == b[0] {
        if a.drop_first() == b.drop_first() {
            assert(a =~= seq![a[0]] + a.drop_first());
            assert(b =~= seq![b[0]] + b.drop_first());
        }
        lemma_lex_total(a.drop_first(), b.drop_first());
    } else if a.len() > 0 && b.len() > 0 {
        vstd::utf8::char_u32_cast(a[0], a[0] as u32);
        vstd::utf8::char_u32_cast(b[0], b[0] as u32);
    } else if a.len() == 0 && b.len() == 0 {
        assert(a =~= b);
    }
}

/// `lex_lt` is asymmetric.
pub proof fn lemma_lex_asymmetric(a: Seq<char>, b: Seq<char>)
    requires
        lex_lt(a, b),
    ensures
        !lex_lt(b, a),
{
    if lex_lt(b, a) {
        lemma_lex_transitive(a, b, a);
        lemma_lex_irreflexive(a);
    }
}


/// Whether the entries are in order of display name.
pub open spec fn names_sorted(xs: Seq<(Seq<char>, Seq<char>, Seq<char>)>) -> bool {
    forall|i: int, j: int| 0 <= i < j < xs.len() ==> !lex_lt(#[trigger] xs[j].1, #[trigger] xs[i].1)
}

proof fn lemma_insert_pos_bounds(
    sorted: Seq<(Seq<char>, Seq<char>, Seq<char>)>,
    x: (Seq<char>, Seq<char>, Seq<char>),
    i: int,
)
    requires
        0 <= i <= sorted.len(),
    ensures
        i <= insert_pos(sorted, x, i) <= sorted.len(),
        forall|j: int| i <= j < insert_pos(sorted, x, i) ==> !lex_lt(x.1, #[trigger] sorted[j].1),
        insert_pos(sorted, x, i) < sorted.len() ==> lex_lt(
            x.1,
            sorted[insert_pos(sorted, x, i)].1,
        ),
    decreases sorted.len() - i,
{
    if i < sorted.len() && !lex_lt(x.1, sorted[i].1) {
        lemma_insert_pos_bounds(sorted, x, i + 1);
    }
}

proof fn lemma_insert_keeps_sorted(
    sorted: Seq<(Seq<char>, Seq<char>, Seq<char>)>,
    x: (Seq<char>, Seq<char>, Seq<char>),
)
    requires
        names_sorted(sorted),
    ensures
        names_sorted(sorted.insert(insert_pos(sorted, x, 0), x)),
{
    let p = insert_pos(sorted, x, 0);
    lemma_insert_pos_bounds(sorted, x, 0);
    let t = sorted.insert(p, x);
    assert forall|i: int, j: int| 0 <= i < j < t.len() implies !lex_lt(
        #[trigger] t[j].1,
        #[trigger] t[i].1,
    ) by {
        if j < p {
            assert(t[i] == sorted[i] && t[j] == sorted[j]);
        } else if j == p {
            assert(t[i] == sorted[i] && t[j] == x);
        } else if i > p {
            assert(t[i] == sorted[i - 1] && t[j] == sorted[j - 1]);
        } else if i == p {
            assert(t[i] == x && t[j] == sorted[j - 1]);
            let a = sorted[p].1;
            let b = sorted[j - 1].1;
            if a != b {
                if j - 1 > p {
                    assert(!lex_lt(sorted[j - 1].1, sorted[p].1));
                }
                lemma_lex_total(a, b);
                lemma_lex_transitive(x.1, a, b);
            }
            lemma_lex_asymmetric(x.1, b);
        } else {
            assert(t[i] == sorted[i] && t[j] == sorted[j - 1]);
        }
    }
}

/// Sorting by display name gives entries in order of display name, each
/// entry kept.
pub proof fn law_sorted_by_name_is_sorted(xs: Seq<(Seq<char>, Seq<char>, Seq<char>)>)
    ensures
        names_sorted(sorted_by_name(xs)),
        sorted_by_name(xs).len() == xs.len(),
        sorted_by_name(xs).to_multiset() == xs.to_multiset(),
    decreases xs.len(),
{
    if xs.len() > 0 {
        law_sorted_by_name_is_sorted(xs.drop_last());
        lemma_insert_keeps_sorted(sorted_by_name(xs.drop_last()), xs.last());
        lemma_insert_pos(sorted_by_name(xs.drop_last()), xs.last(), 0);
        let s = sorted_by_name(xs.drop_last());
        vstd::seq_lib::to_multiset_insert(s, insert_pos(s, xs.last(), 0), xs.last());
        vstd::seq_lib::to_multiset_build(xs.drop_last(), xs.last());
        assert(xs.drop_last().push(xs.last()) =~= xs);
    } else {
        assert(xs.to_multiset() =~= vstd::multiset::Multiset::empty()) by {
            vstd::seq_lib::to_multiset_len(xs);
        }
        assert(sorted_by_name(xs).to_multiset() =~= vstd::multiset::Multiset::empty()) by {
            vstd::seq_lib::to_multiset_len(sorted_by_name(xs));
        }
    }
}

/// Listing a style directory whose `.md` files all read: an error exactly
/// when there is no such file; otherwise one summary per file (its file
/// name, display name and the description of its content), in order of
/// display name.
pub proof fn law_listing(
    styles_dir: Seq<char>,
    entries: Seq<(Seq<char>, Seq<char>, Result<Seq<char>, Seq<char>>)>,
)
    requires
        forall|i: int| 0 <= i < entries.len() ==> (#[trigger] entries[i]).2 is Ok,
    ensures
        listing(styles_dir, entries) is Err <==> entries.len() == 0,
        listing(styles_dir, entries) matches Ok(v) ==> names_sorted(v) && v.to_multiset()
            == entries.map_values(
            |e: (Seq<char>, Seq<char>, Result<Seq<char>, Seq<char>>)|
                (e.0, e.1, description_of(e.2->Ok_0)),
        ).to_multiset(),
{
    let d = entries.map_values(
        |e: (Seq<char>, Seq<char>, Result<Seq<char>, Seq<char>>)|
            (e.0, e.1, description_of(e.2->Ok_0)),
    );
    law_sorted_by_name_is_sorted(d);
}


// ── Matching a style ─────────────────────────────────────────────────

/// The next step of matching a style to a request.
pub enum MatchStep {
    /// The style (display name, content).
    Found(String, String),
    /// Matching failed.
    Fail(AppError),
    /// Take the most recently modified style file.
    Newest,
    /// Look for the request in the opening of each style file.
    ScanContents,
}

/// Decides how to match `query` in a style directory with `md_files`
/// Markdown files, `exact` being the read of `<query>.md` where that file
/// exists: no file is an error; an exact file name wins; a request for the
/// latest style takes the newest file; otherwise the contents are scanned.
pub fn style_match_step(
    styles_dir: &str,
    query: &str,
    md_files: usize,
    exact: Option<Result<String, String>>,
) -> (r: MatchStep)
    ensures
        md_files == 0 ==> (r matches MatchStep::Fail(AppError::NoStyles(m)) && m@ == styles_dir@
            + " 目录下没有 .md 风格文件"@),
        md_files > 0 ==> match exact {
            Some(Ok(c)) => r matches MatchStep::Found(n, d) && n@ == query@ && d@ == c@,
            Some(Err(e)) => r matches MatchStep::Fail(AppError::FileRead(m)) && m@ == e@,
            None => if recent_query(query@) {
                r is Newest
            } else {
                r is ScanContents
            },
        },
{
    if md_files == 0 {
        return MatchStep::Fail(no_styles_error(styles_dir));
    }
    match exact {
        Some(Ok(c)) => MatchStep::Found(query.to_owned(), c),
        Some(Err(e)) => MatchStep::Fail(AppError::FileRead(e)),
        None => {
            if is_recent_query(query) {
                MatchStep::Newest
            } else {
                MatchStep::ScanContents
            }
        },
    }
}


/// Scanning readable style files for a request: it finds a style exactly
/// when some file's opening holds the request, and then the first such file
/// in scanning order; otherwise the error names the request.
pub proof fn law_content_match_first(
    entries: Seq<(Seq<char>, Result<Seq<char>, Seq<char>>)>,
    query: Seq<char>,
)
    requires
        forall|i: int| 0 <= i < entries.len() ==> (#[trigger] entries[i]).1 is Ok,
    ensures
        content_match(entries, query) is Ok <==> exists|i: int|
            0 <= i < entries.len() && preview_matches(
                (#[trigger] entries[i]).1->Ok_0,
                query,
            ),
        content_match(entries, query) matches Ok((n, c)) ==> exists|i: int|
            0 <= i < entries.len() && n == (#[trigger] entries[i]).0 && c == entries[i].1->Ok_0
                && preview_matches(c, query) && forall|j: int|
                0 <= j < i ==> !preview_matches(entries[j].1->Ok_0, query),
        content_match(entries, query) is Err ==> content_match(entries, query)
            == Err::<(Seq<char>, Seq<char>), AppErrorModel>(
            AppErrorModel::NoStyles("未找到匹配 '"@ + query + "' 的风格文件"@),
        ),
    decreases entries.len(),
{
    if entries.len() > 0 {
        let rest = entries.drop_first();
        assert forall|i: int| 0 <= i < rest.len() implies (#[trigger] rest[i]).1 is Ok by {
            assert(rest[i] == entries[i + 1]);
        }
        law_content_match_first(rest, query);
        assert(entries[0].1 is Ok);
        if preview_matches(entries[0].1->Ok_0, query) {
        } else {
            if exists|i: int|
                0 <= i < entries.len() && preview_matches((#[trigger] entries[i]).1->Ok_0, query) {
                let i = choose|i: int|
                    0 <= i < entries.len() && preview_matches(
                        (#[trigger] entries[i]).1->Ok_0,
                        query,
                    );
                assert(i > 0);
                assert(rest[i - 1] == entries[i]);
            }
            match content_match(rest, query) {
                Ok((n, c)) => {
                    let i = choose|i: int|
                        0 <= i < rest.len() && n == (#[trigger] rest[i]).0 && c == rest[i].1->Ok_0
                            && preview_matches(c, query) && forall|j: int|
                            0 <= j < i ==> !preview_matches(rest[j].1->Ok_0, query);
                    assert(entries[i + 1] == rest[i]);
                    assert forall|j: int| 0 <= j < i + 1 implies !preview_matches(
                        entries[j].1->Ok_0,
                        query,
                    ) by {
                        if j > 0 {
                            assert(entries[j] == rest[j - 1]);
                        }
                    }
                },
                Err(_) => {},
            }
        }
    }
}

} // verus!
