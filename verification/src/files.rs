//! File naming: versioned output files (`outputs/<slug>_v<n>.md`), the
//! style files of a directory, and the labels shown for them.
//!
//! Listing directories and reading files happen outside the library, which
//! hands the names in.

use vstd::prelude::*;
use crate::styles::{lex_less, lex_lt};
use crate::text::{
    chars_of, decimal, decimal_chars, ends_with, ends_with_chars, last_index, push_all, push_str,
    rfind_chars, slice_chars, starts_with, starts_with_chars, string_of,
};

verus! {

broadcast use vstd::string::group_string_axioms;

// ── Parsing a version number (`str::parse::<u32>`) ───────────────────

/// Whether `c` is an ASCII decimal digit.
pub open spec fn is_digit(c: char) -> bool {
    '0' <= c <= '9'
}

/// The value of a string of decimal digits.
pub open spec fn digits_value(d: Seq<char>) -> nat
    decreases d.len(),
{
    if d.len() == 0 {
        0
    } else {
        digits_value(d.drop_last()) * 10 + ((d.last() as u32) - 48) as nat
    }
}

/// The digits of a `u32` literal: an optional leading `+` removed.
pub open spec fn unsigned_digits(s: Seq<char>) -> Seq<char> {
    if s.len() > 0 && s[0] == '+' {
        s.drop_first()
    } else {
        s
    }
}

/// Whether every character of `d` is an ASCII digit.
pub open spec fn all_digits(d: Seq<char>) -> bool {
    forall|i: int| 0 <= i < d.len() ==> is_digit(#[trigger] d[i])
}

/// What `str::parse::<u32>` accepts: an optional `+`, then one or more
/// ASCII digits whose value fits in `u32`.
pub open spec fn u32_value(s: Seq<char>) -> Option<nat> {
    let d = unsigned_digits(s);
    if d.len() == 0 {
        None
    } else if !all_digits(d) {
        None
    } else if digits_value(d) > u32::MAX {
        None
    } else {
        Some(digits_value(d))
    }
}

proof fn lemma_digits_value_prefix(d: Seq<char>, i: int)
    requires
        0 <= i <= d.len(),
        forall|j: int| 0 <= j < d.len() ==> is_digit(d[j]),
    ensures
        digits_value(d.take(i)) <= digits_value(d),
    decreases d.len() - i,
{
    if i < d.len() {
        lemma_digits_value_prefix(d, i + 1);
        assert(d.take(i + 1).drop_last() =~= d.take(i));
        assert(d.take(i + 1).last() == d[i]);
    } else {
        assert(d.take(i) =~= d);
    }
}

/// `s.parse::<u32>().ok()`.
pub fn parse_u32(s: &[char]) -> (r: Option<u32>)
    ensures
        r matches Some(n) ==> u32_value(s@) == Some(n as nat),
        r is None ==> u32_value(s@) is None,
{
    let start: usize = if s.len() > 0 && s[0] == '+' {
        1
    } else {
        0
    };
    let ghost d = unsigned_digits(s@);
    assert(d =~= s@.skip(start as int));
    if start >= s.len() {
        assert(d.len() == 0);
        assert(u32_value(s@) is None);
        return None;
    }
    let mut i = start;
    while i < s.len()
        invariant
            start <= i <= s@.len(),
            d =~= s@.skip(start as int),
            d == unsigned_digits(s@),
            forall|j: int| start <= j < i ==> is_digit(s@[j]),
        decreases s.len() - i,
    {
        if !('0' <= s[i] && s[i] <= '9') {
            assert(!is_digit(d[i - start]));
            assert(!all_digits(d));

            return None;
        }
        i += 1;
    }
    assert(forall|j: int| 0 <= j < d.len() ==> is_digit(d[j]));
    assert(all_digits(d));
    let mut value: u64 = 0;
    let mut k = start;
    while k < s.len()
        invariant
            start <= k <= s@.len(),
            d =~= s@.skip(start as int),
            d == unsigned_digits(s@),
            forall|j: int| 0 <= j < d.len() ==> is_digit(d[j]),
            value == digits_value(d.take(k - start)),
            value <= u32::MAX,
        decreases s.len() - k,
    {
        assert(is_digit(d[k - start]));
        let digit = ((s[k] as u32) - 48) as u64;
        proof {
            assert(d.take(k + 1 - start).drop_last() =~= d.take(k - start));
            assert(d.take(k + 1 - start).last() == s@[k as int]);
        }
        let next = value * 10 + digit;
        if next > 0xFFFF_FFFF {
            proof {
                lemma_digits_value_prefix(d, k + 1 - start);
                assert(digits_value(d) > u32::MAX);
            }
            return None;
        }
        value = next;
        k += 1;
    }
    assert(d.take(k - start) =~= d);
    Some(value as u32)
}

// ── Versions of an output file ───────────────────────────────────────

/// The version of file `name` for `slug`: `<slug>_v<n>.md` or
/// `<slug>_v<n>.html` with `n` a `u32`.
pub open spec fn version_of(name: Seq<char>, slug: Seq<char>) -> Option<nat> {
    let prefix = slug + "_v"@;
    if !starts_with(name, prefix) {
        None
    } else {
        let rest = name.skip(prefix.len() as int);
        if ends_with(rest, ".md"@) {
            u32_value(rest.take(rest.len() - 3))
        } else if ends_with(rest, ".html"@) {
            u32_value(rest.take(rest.len() - 5))
        } else {
            None
        }
    }
}

/// The highest version among `names` for `slug` (0 if there is none).
pub open spec fn max_version_of(names: Seq<Seq<char>>, slug: Seq<char>) -> nat
    decreases names.len(),
{
    if names.len() == 0 {
        0
    } else {
        let m = max_version_of(names.drop_last(), slug);
        match version_of(names.last(), slug) {
            Some(n) => if n > m {
                n
            } else {
                m
            },
            None => m,
        }
    }
}

/// The views of a vector of strings.
pub open spec fn name_views(names: Seq<String>) -> Seq<Seq<char>> {
    names.map_values(|s: String| s@)
}

/// The version of one file name (see [`version_of`]).
pub fn file_version(name: &str, slug: &str) -> (r: Option<u32>)
    ensures
        r matches Some(n) ==> version_of(name@, slug@) == Some(n as nat),
        r is None ==> version_of(name@, slug@) is None,
{
    let n = chars_of(name);
    let mut prefix = chars_of(slug);
    push_str(&mut prefix, "_v");
    if !starts_with_chars(n.as_slice(), prefix.as_slice()) {
        return None;
    }
    let rest = slice_chars(n.as_slice(), prefix.len(), n.len());
    assert(rest@ =~= name@.skip(prefix@.len() as int));
    let md = chars_of(".md");
    let html = chars_of(".html");
    proof {
        reveal_strlit(".md");
        reveal_strlit(".html");
    }
    if ends_with_chars(rest.as_slice(), md.as_slice()) {
        let digits = slice_chars(rest.as_slice(), 0, rest.len() - 3);
        assert(digits@ =~= rest@.take(rest@.len() - 3));
        parse_u32(digits.as_slice())
    } else if ends_with_chars(rest.as_slice(), html.as_slice()) {
        let digits = slice_chars(rest.as_slice(), 0, rest.len() - 5);
        assert(digits@ =~= rest@.take(rest@.len() - 5));
        parse_u32(digits.as_slice())
    } else {
        None
    }
}

/// The highest existing version of `slug` among the file names of a
/// directory (0 if there is none).
pub fn max_version(names: &Vec<String>, slug: &str) -> (r: u32)
    ensures
        r == max_version_of(name_views(names@), slug@),
{
    let mut max: u32 = 0;
    let mut i: usize = 0;
    while i < names.len()
        invariant
            i <= names@.len(),
            max == max_version_of(name_views(names@).take(i as int), slug@),
        decreases names.len() - i,
    {
        proof {
            assert(name_views(names@).take(i + 1).drop_last() =~= name_views(names@).take(
                i as int,
            ));
            assert(name_views(names@).take(i + 1).last() == names@[i as int]@);
        }
        match file_version(names[i].as_str(), slug) {
            Some(n) => {
                if n > max {
                    max = n;
                }
            },
            None => {},
        }
        i += 1;
    }
    assert(name_views(names@).take(i as int) =~= name_views(names@));
    max
}

/// The next version of `slug` in a directory with files `names`: one more
/// than the highest existing one.
pub fn next_version(names: &Vec<String>, slug: &str) -> (r: u32)
    requires
        max_version_of(name_views(names@), slug@) < u32::MAX,
    ensures
        r == max_version_of(name_views(names@), slug@) + 1,
{
    max_version(names, slug) + 1
}

/// `outputs/<slug>_v<version><extension>`.
pub fn versioned_path(slug: &str, version: u32, extension: &str) -> (r: String)
    ensures
        r@ == "outputs/"@ + slug@ + "_v"@ + decimal(version as nat) + extension@,
{
    let mut v = chars_of("outputs/");
    push_str(&mut v, slug);
    push_str(&mut v, "_v");
    let d = decimal_chars(version as u128);
    push_all(&mut v, d.as_slice());
    push_str(&mut v, extension);
    string_of(v.as_slice())
}

// ── Style files ──────────────────────────────────────────────────────

/// The file name of a path: what follows its last `/`.
pub open spec fn file_name_of(path: Seq<char>) -> Seq<char> {
    match last_index(path, "/"@) {
        Some(i) => path.skip(i + 1),
        None => path,
    }
}

/// Whether a path has the extension `md` (`Path::extension`): its file
/// name has a `.` that is not its first character, and `md` follows the
/// last one.
pub open spec fn has_md_extension(path: Seq<char>) -> bool {
    let name = file_name_of(path);
    match last_index(name, "."@) {
        Some(i) => i > 0 && name.skip(i + 1) == "md"@,
        None => false,
    }
}

/// Whether the path names a Markdown file.
pub fn is_md_path(path: &str) -> (r: bool)
    ensures
        r == has_md_extension(path@),
{
    let p = chars_of(path);
    let slash = chars_of("/");
    proof {
        reveal_strlit("/");
        reveal_strlit(".");
        crate::text::lemma_last_index_upto(path@, "/"@, path@.len() - 1);
    }
    let name = match rfind_chars(p.as_slice(), slash.as_slice()) {
        Some(i) => {
            assert(crate::text::occurs_at(path@, "/"@, i as int));
            assert(i < p.len());
            slice_chars(p.as_slice(), i + 1, p.len())
        },
        None => p,
    };
    proof {
        crate::text::lemma_last_index_upto(name@, "."@, name@.len() - 1);
    }
    assert(name@ =~= file_name_of(path@));
    let dot = chars_of(".");
    match rfind_chars(name.as_slice(), dot.as_slice()) {
        Some(i) => {
            assert(crate::text::occurs_at(name@, "."@, i as int));
            assert(i < name.len());
            let ext = slice_chars(name.as_slice(), i + 1, name.len());
            assert(ext@ =~= name@.skip(i + 1));
            i > 0 && crate::text::chars_eq(ext.as_slice(), chars_of("md").as_slice())
        },
        None => false,
    }
}

/// Where `x` goes in sorted `xs` (searching from `i`): before the first
/// greater entry.
pub open spec fn insert_at(xs: Seq<Seq<char>>, x: Seq<char>, i: int) -> int
    decreases xs.len() - i,
{
    if i < 0 || i >= xs.len() {
        xs.len() as int
    } else if lex_lt(x, xs[i]) {
        i
    } else {
        insert_at(xs, x, i + 1)
    }
}

/// `xs` sorted (insertion sort; `slice::sort` on strings).
pub open spec fn sorted_names(xs: Seq<Seq<char>>) -> Seq<Seq<char>>
    decreases xs.len(),
{
    if xs.len() == 0 {
        Seq::empty()
    } else {
        let s = sorted_names(xs.drop_last());
        s.insert(insert_at(s, xs.last(), 0), xs.last())
    }
}

proof fn lemma_insert_at(xs: Seq<Seq<char>>, x: Seq<char>, i: int)
    requires
        0 <= i <= xs.len(),
    ensures
        i <= insert_at(xs, x, i) <= xs.len(),
    decreases xs.len() - i,
{
    if i < xs.len() && !lex_lt(x, xs[i]) {
        lemma_insert_at(xs, x, i + 1);
    }
}

/// The paths that name Markdown files, in order.
pub open spec fn md_paths(paths: Seq<Seq<char>>) -> Seq<Seq<char>>
    decreases paths.len(),
{
    if paths.len() == 0 {
        Seq::empty()
    } else if has_md_extension(paths.last()) {
        md_paths(paths.drop_last()).push(paths.last())
    } else {
        md_paths(paths.drop_last())
    }
}

/// The style files of a directory, from the paths of its entries: the
/// Markdown ones, sorted; none is an error.
pub open spec fn style_files(dir: Seq<char>, paths: Seq<Seq<char>>) -> Result<Seq<Seq<char>>, Seq<char>> {
    let md = md_paths(paths);
    if md.len() == 0 {
        Err(dir + " 目录下没有 .md 风格文件"@)
    } else {
        Ok(sorted_names(md))
    }
}

/// The style files of directory `dir` whose entries have the given paths
/// (see [`style_files`]).
pub fn list_styles(dir: &str, paths: &Vec<String>) -> (r: Result<Vec<String>, String>)
    ensures
        match r {
            Ok(v) => style_files(dir@, name_views(paths@)) == Ok::<Seq<Seq<char>>, Seq<char>>(
                name_views(v@),
            ),
            Err(m) => style_files(dir@, name_views(paths@)) == Err::<Seq<Seq<char>>, Seq<char>>(
                m@,
            ),
        },
{
    let ghost all = name_views(paths@);
    let mut sorted: Vec<String> = Vec::new();
    let mut count: usize = 0;
    let mut i: usize = 0;
    while i < paths.len()
        invariant
            i <= paths@.len(),
            all == name_views(paths@),
            count <= i,
            count == md_paths(all.take(i as int)).len(),
            name_views(sorted@) == sorted_names(md_paths(all.take(i as int))),
        decreases paths.len() - i,
    {
        let ghost before = name_views(sorted@);
        proof {
            assert(all.take(i + 1).drop_last() =~= all.take(i as int));
            assert(all.take(i + 1).last() == paths@[i as int]@);
        }
        if is_md_path(paths[i].as_str()) {
            let item = paths[i].clone();
            let ghost x = item@;
            let mut p: usize = 0;
            while p < sorted.len() && !lex_less(
                chars_of(item.as_str()).as_slice(),
                chars_of(sorted[p].as_str()).as_slice(),
            )
                invariant
                    p <= sorted@.len(),
                    before == name_views(sorted@),
                    x == item@,
                    insert_at(before, x, 0) == insert_at(before, x, p as int),
                decreases sorted.len() - p,
            {
                p += 1;
            }
            proof {
                lemma_insert_at(before, x, 0);
            }
            sorted.insert(p, item);
            assert(name_views(sorted@) =~= before.insert(p as int, x));
            proof {
                let m = md_paths(all.take(i as int));
                assert(md_paths(all.take(i + 1)) == m.push(x));
                assert(m.push(x).drop_last() =~= m);
                assert(m.push(x).last() == x);
            }
            count += 1;
        }
        i += 1;
    }
    assert(all.take(i as int) =~= all);
    if count == 0 {
        let mut m = chars_of(dir);
        push_str(&mut m, " 目录下没有 .md 风格文件");
        return Err(string_of(m.as_slice()));
    }
    Ok(sorted)
}

/// The label of a style path: without a leading `styles/`.
pub open spec fn style_label_of(path: Seq<char>) -> Seq<char> {
    if starts_with(path, "styles/"@) {
        path.skip(7)
    } else {
        path
    }
}

/// The label shown for a style path.
pub fn style_label(path: &str) -> (r: String)
    ensures
        r@ == style_label_of(path@),
{
    let p = chars_of(path);
    let prefix = chars_of("styles/");
    proof {
        reveal_strlit("styles/");
    }
    if starts_with_chars(p.as_slice(), prefix.as_slice()) {
        string_of(slice_chars(p.as_slice(), 7, p.len()).as_slice())
    } else {
        string_of(p.as_slice())
    }
}


/// The highest version is at least every version present.
proof fn lemma_max_version_bounds(names: Seq<Seq<char>>, slug: Seq<char>, i: int)
    requires
        0 <= i < names.len(),
        version_of(names[i], slug) is Some,
    ensures
        version_of(names[i], slug)->0 <= max_version_of(names, slug),
    decreases names.len(),
{
    if i < names.len() - 1 {
        lemma_max_version_bounds(names.drop_last(), slug, i);
    }
}

proof fn lemma_max_version_attained(names: Seq<Seq<char>>, slug: Seq<char>)
    ensures
        max_version_of(names, slug) == 0 || exists|i: int|
            0 <= i < names.len() && #[trigger] version_of(names[i], slug) == Some(
                max_version_of(names, slug),
            ),
    decreases names.len(),
{
    if names.len() > 0 {
        let rest = names.drop_last();
        lemma_max_version_attained(rest, slug);
        let m = max_version_of(rest, slug);
        if max_version_of(names, slug) != 0 {
            match version_of(names.last(), slug) {
                Some(n) => {
                    if n > m {
                        assert(version_of(names[names.len() - 1], slug) == Some(n));
                    } else {
                        let i = choose|i: int|
                            0 <= i < rest.len() && #[trigger] version_of(rest[i], slug) == Some(m);
                        assert(names[i] == rest[i]);
                    }
                },
                None => {
                    let i = choose|i: int|
                        0 <= i < rest.len() && #[trigger] version_of(rest[i], slug) == Some(m);
                    assert(names[i] == rest[i]);
                },
            }
        }
    }
}

/// The highest version is that of a file of the slug already there (or 0
/// when there is none); the next version is one more, so it is new: greater
/// than the version of every file of the slug already there.
pub proof fn law_next_version_is_new(names: Seq<Seq<char>>, slug: Seq<char>)
    ensures
        max_version_of(names, slug) == 0 || exists|i: int|
            0 <= i < names.len() && #[trigger] version_of(names[i], slug) == Some(
                max_version_of(names, slug),
            ),
        forall|i: int|
            0 <= i < names.len() && #[trigger] version_of(names[i], slug) is Some ==> version_of(
                names[i],
                slug,
            )->0 < max_version_of(names, slug) + 1,
{
    assert forall|i: int|
        0 <= i < names.len() && #[trigger] version_of(names[i], slug) is Some implies version_of(
        names[i],
        slug,
    )->0 < max_version_of(names, slug) + 1 by {
        lemma_max_version_bounds(names, slug, i);
    }
    lemma_max_version_attained(names, slug);
}


/// Whether the names are in order.
pub open spec fn in_order(xs: Seq<Seq<char>>) -> bool {
    forall|i: int, j: int| 0 <= i < j < xs.len() ==> !lex_lt(#[trigger] xs[j], #[trigger] xs[i])
}

proof fn lemma_insert_at_bounds(xs: Seq<Seq<char>>, x: Seq<char>, i: int)
    requires
        0 <= i <= xs.len(),
    ensures
        i <= insert_at(xs, x, i) <= xs.len(),
        forall|j: int| i <= j < insert_at(xs, x, i) ==> !lex_lt(x, #[trigger] xs[j]),
        insert_at(xs, x, i) < xs.len() ==> lex_lt(x, xs[insert_at(xs, x, i)]),
    decreases xs.len() - i,
{
    if i < xs.len() && !lex_lt(x, xs[i]) {
        lemma_insert_at_bounds(xs, x, i + 1);
    }
}

/// The style files come out sorted, none lost.
pub proof fn law_sorted_names_in_order(xs: Seq<Seq<char>>)
    ensures
        in_order(sorted_names(xs)),
        sorted_names(xs).len() == xs.len(),
        sorted_names(xs).to_multiset() == xs.to_multiset(),
    decreases xs.len(),
{
    if xs.len() == 0 {
        vstd::seq_lib::to_multiset_len(xs);
        vstd::seq_lib::to_multiset_len(sorted_names(xs));
        assert(xs.to_multiset() =~= vstd::multiset::Multiset::empty());
        assert(sorted_names(xs).to_multiset() =~= vstd::multiset::Multiset::empty());
    }
    if xs.len() > 0 {
        law_sorted_names_in_order(xs.drop_last());
        lemma_insert_at_bounds(sorted_names(xs.drop_last()), xs.last(), 0);
        vstd::seq_lib::to_multiset_insert(
            sorted_names(xs.drop_last()),
            insert_at(sorted_names(xs.drop_last()), xs.last(), 0),
            xs.last(),
        );
        vstd::seq_lib::to_multiset_build(xs.drop_last(), xs.last());
        assert(xs.drop_last().push(xs.last()) =~= xs);
        let s = sorted_names(xs.drop_last());
        let x = xs.last();
        let p = insert_at(s, x, 0);
        lemma_insert_at_bounds(s, x, 0);
        let t = s.insert(p, x);
        assert forall|i: int, j: int| 0 <= i < j < t.len() implies !lex_lt(
            #[trigger] t[j],
            #[trigger] t[i],
        ) by {
            if j < p {
                assert(t[i] == s[i] && t[j] == s[j]);
            } else if j == p {
                assert(t[i] == s[i] && t[j] == x);
            } else if i > p {
                assert(t[i] == s[i - 1] && t[j] == s[j - 1]);
            } else if i == p {
                assert(t[i] == x && t[j] == s[j - 1]);
                if s[p] != s[j - 1] {
                    if j - 1 > p {
                        assert(!lex_lt(s[j - 1], s[p]));
                    }
                    crate::styles::lemma_lex_total(s[p], s[j - 1]);
                    crate::styles::lemma_lex_transitive(x, s[p], s[j - 1]);
                }
                crate::styles::lemma_lex_asymmetric(x, s[j - 1]);
            } else {
                assert(t[i] == s[i] && t[j] == s[j - 1]);
            }
        }
    }
}


/// `n.to_string()` reads back as `n`: digits only, not starting with `+`.
proof fn lemma_decimal_reads_back(n: nat)
    ensures
        decimal(n).len() > 0,
        decimal(n)[0] != '+',
        all_digits(decimal(n)),
        digits_value(decimal(n)) == n,
    decreases n,
{
    let c = crate::text::digit_char(n % 10);
    assert(((48 + n % 10) as u8) as u32 == 48 + n % 10);
    assert((c as u32) == 48 + n % 10);
    if n < 10 {
        let d = decimal(n);
        assert(d == seq![c]);
        assert(d.drop_last() =~= Seq::<char>::empty());
        assert(digits_value(Seq::<char>::empty()) == 0);
    } else {
        lemma_decimal_reads_back(n / 10);
        let p = decimal(n / 10);
        let d = decimal(n);
        assert(d == p.push(c));
        assert(d.drop_last() =~= p);
        assert(d[0] == p[0]);
        assert forall|i: int| 0 <= i < d.len() implies is_digit(#[trigger] d[i]) by {
            if i < p.len() {
                assert(d[i] == p[i]);
            }
        }
    }
}

/// Writing the file of the next version makes it the highest: the version
/// after that is one more.
pub proof fn law_next_version_after_write(names: Seq<Seq<char>>, slug: Seq<char>)
    requires
        max_version_of(names, slug) < u32::MAX,
    ensures
        ({
            let r = max_version_of(names, slug) + 1;
            max_version_of(names.push(slug + "_v"@ + decimal(r) + ".md"@), slug) == r
        }),
{
    reveal_strlit("_v");
    reveal_strlit(".md");
    let r = max_version_of(names, slug) + 1;
    let prefix = slug + "_v"@;
    let name = slug + "_v"@ + decimal(r) + ".md"@;
    lemma_decimal_reads_back(r);
    assert(name.take(prefix.len() as int) =~= prefix);
    let rest = name.skip(prefix.len() as int);
    assert(rest =~= decimal(r) + ".md"@);
    assert(rest.skip(rest.len() - 3) =~= ".md"@);
    assert(rest.take(rest.len() - 3) =~= decimal(r));
    assert(unsigned_digits(decimal(r)) == decimal(r));
    assert(version_of(name, slug) == Some(r));
    let all = names.push(name);
    assert(all.drop_last() =~= names);
    assert(all.last() == name);
}

} // verus!
