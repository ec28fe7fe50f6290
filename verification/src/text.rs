//! Character-sequence primitives: the model of text used by every module.
//!
//! Text is modelled as `Seq<char>` (the view of `str` and `String`).  The
//! executable helpers here work on `&[char]` / `Vec<char>` and are proved
//! against the spec functions next to them.

use vstd::prelude::*;

verus! {

broadcast use vstd::string::group_string_axioms;

// ── conversions ─────────────────────────────────────────────────────

/// The characters of `s`, in order.
pub fn chars_of(s: &str) -> (v: Vec<char>)
    ensures
        v@ == s@,
{
    let mut v: Vec<char> = Vec::new();
    for c in it: s.chars()
        invariant
            v@ == it.seq().take(it.index() as int),
            it.seq() == s@,
    {
        v.push(c);
    }
    v
}

/// A `String` holding exactly the given characters (std `String: FromIterator<char>`).
#[verifier::external_body]
pub fn string_of(chars: &[char]) -> (s: String)
    ensures
        s@ == chars@,
{
    chars.iter().collect()
}

/// Copy of `s[a..b]`.
pub fn slice_chars(s: &[char], a: usize, b: usize) -> (v: Vec<char>)
    requires
        a <= b <= s@.len(),
    ensures
        v@ == s@.subrange(a as int, b as int),
{
    let mut v: Vec<char> = Vec::new();
    let mut i = a;
    while i < b
        invariant
            a <= i <= b <= s@.len(),
            v@ == s@.subrange(a as int, i as int),
        decreases b - i,
    {
        v.push(s[i]);
        i += 1;
    }
    v
}

/// Appends all of `s` to `v`.
pub fn push_all(v: &mut Vec<char>, s: &[char])
    ensures
        final(v)@ == old(v)@ + s@,
{
    let mut i: usize = 0;
    while i < s.len()
        invariant
            i <= s@.len(),
            v@ == old(v)@ + s@.take(i as int),
        decreases s.len() - i,
    {
        v.push(s[i]);
        i += 1;
        assert(s@.take(i as int) == s@.take(i - 1) + seq![s@[i - 1]]);
    }
    assert(s@.take(s@.len() as int) == s@);
}

/// Appends the characters of `s` to `v`.
pub fn push_str(v: &mut Vec<char>, s: &str)
    ensures
        final(v)@ == old(v)@ + s@,
{
    let c = chars_of(s);
    push_all(v, c.as_slice());
}

/// Whether two character sequences are equal.
pub fn chars_eq(a: &[char], b: &[char]) -> (r: bool)
    ensures
        r == (a@ == b@),
{
    if a.len() != b.len() {
        return false;
    }
    let mut i: usize = 0;
    while i < a.len()
        invariant
            a@.len() == b@.len(),
            i <= a@.len(),
            forall|k: int| 0 <= k < i ==> a@[k] == b@[k],
        decreases a.len() - i,
    {
        if a[i] != b[i] {
            return false;
        }
        i += 1;
    }
    assert(a@ =~= b@);
    true
}

// ── whitespace and trimming ─────────────────────────────────────────

/// The Unicode `White_Space` property (what `char::is_whitespace` tests).
pub open spec fn is_ws(c: char) -> bool {
    let u = c as u32;
    ||| 0x09 <= u <= 0x0D
    ||| u == 0x20
    ||| u == 0x85
    ||| u == 0xA0
    ||| u == 0x1680
    ||| 0x2000 <= u <= 0x200A
    ||| u == 0x2028
    ||| u == 0x2029
    ||| u == 0x202F
    ||| u == 0x205F
    ||| u == 0x3000
}

/// `c.is_whitespace()`.
pub fn is_whitespace(c: char) -> (r: bool)
    ensures
        r == is_ws(c),
{
    let u = c as u32;
    (0x09 <= u && u <= 0x0D) || u == 0x20 || u == 0x85 || u == 0xA0 || u == 0x1680 || (0x2000
        <= u && u <= 0x200A) || u == 0x2028 || u == 0x2029 || u == 0x202F || u == 0x205F || u
        == 0x3000
}

/// `s` without its leading whitespace.
pub open spec fn trim_start(s: Seq<char>) -> Seq<char>
    decreases s.len(),
{
    if s.len() > 0 && is_ws(s[0]) {
        trim_start(s.drop_first())
    } else {
        s
    }
}

/// `s` without its trailing whitespace.
pub open spec fn trim_end(s: Seq<char>) -> Seq<char>
    decreases s.len(),
{
    if s.len() > 0 && is_ws(s.last()) {
        trim_end(s.drop_last())
    } else {
        s
    }
}

/// `s` without leading and trailing whitespace (`str::trim`).
pub open spec fn trim(s: Seq<char>) -> Seq<char> {
    trim_end(trim_start(s))
}

/// Index of the first non-whitespace character (or `len`).
pub fn trim_start_index(s: &[char]) -> (i: usize)
    ensures
        i <= s@.len(),
        trim_start(s@) == s@.skip(i as int),
{
    let mut i: usize = 0;
    assert(s@.skip(0) == s@);
    while i < s.len() && is_whitespace(s[i])
        invariant
            i <= s@.len(),
            trim_start(s@) == trim_start(s@.skip(i as int)),
        decreases s.len() - i,
    {
        assert(s@.skip(i as int).drop_first() == s@.skip(i + 1));
        i += 1;
    }
    i
}

/// Index one past the last non-whitespace character of `s[..]` (or 0).
pub fn trim_end_index(s: &[char]) -> (j: usize)
    ensures
        j <= s@.len(),
        trim_end(s@) == s@.take(j as int),
{
    let mut j: usize = s.len();
    assert(s@.take(j as int) == s@);
    while j > 0 && is_whitespace(s[j - 1])
        invariant
            j <= s@.len(),
            trim_end(s@) == trim_end(s@.take(j as int)),
        decreases j,
    {
        assert(s@.take(j as int).drop_last() == s@.take(j - 1));
        j -= 1;
    }
    j
}

/// `s.trim()` as a new vector.
pub fn trim_chars(s: &[char]) -> (v: Vec<char>)
    ensures
        v@ == trim(s@),
{
    let i = trim_start_index(s);
    let rest = slice_chars(s, i, s.len());
    assert(rest@ == s@.skip(i as int));
    let j = trim_end_index(rest.as_slice());
    slice_chars(rest.as_slice(), 0, j)
}

/// `s.trim_start()` as a new vector.
pub fn trim_start_chars(s: &[char]) -> (v: Vec<char>)
    ensures
        v@ == trim_start(s@),
{
    let i = trim_start_index(s);
    slice_chars(s, i, s.len())
}

/// Whether `s.trim()` is empty.
pub fn is_blank(s: &[char]) -> (r: bool)
    ensures
        r == (trim(s@).len() == 0),
{
    let t = trim_chars(s);
    t.len() == 0
}

// ── searching ───────────────────────────────────────────────────────

/// `p` occurs in `s` starting at index `i`.
pub open spec fn occurs_at(s: Seq<char>, p: Seq<char>, i: int) -> bool {
    0 <= i && i + p.len() <= s.len() && s.subrange(i, i + p.len()) == p
}

/// `p` occurs somewhere in `s` (`str::contains`).
pub open spec fn contains_seq(s: Seq<char>, p: Seq<char>) -> bool {
    exists|i: int| occurs_at(s, p, i)
}

/// `s` starts with `p`.
pub open spec fn starts_with(s: Seq<char>, p: Seq<char>) -> bool {
    p.len() <= s.len() && s.take(p.len() as int) == p
}

/// `s` ends with `p`.
pub open spec fn ends_with(s: Seq<char>, p: Seq<char>) -> bool {
    p.len() <= s.len() && s.skip(s.len() - p.len()) == p
}

/// The first occurrence of `p` in `s` at or after `k`.
pub open spec fn first_index_from(s: Seq<char>, p: Seq<char>, k: int) -> Option<int>
    decreases s.len() - k,
{
    if k < 0 || k + p.len() > s.len() {
        None
    } else if occurs_at(s, p, k) {
        Some(k)
    } else if k >= s.len() {
        None
    } else {
        first_index_from(s, p, k + 1)
    }
}

/// The first occurrence of `p` in `s` (`str::find`).
pub open spec fn first_index(s: Seq<char>, p: Seq<char>) -> Option<int> {
    first_index_from(s, p, 0)
}

/// The last occurrence of `p` in `s` at or before `k`.
pub open spec fn last_index_upto(s: Seq<char>, p: Seq<char>, k: int) -> Option<int>
    decreases k + 1,
{
    if k < 0 {
        None
    } else if occurs_at(s, p, k) {
        Some(k)
    } else {
        last_index_upto(s, p, k - 1)
    }
}

/// The last occurrence of `p` in `s` (`str::rfind`).
pub open spec fn last_index(s: Seq<char>, p: Seq<char>) -> Option<int> {
    last_index_upto(s, p, s.len() - p.len())
}

/// `first_index_from` finds the least occurrence at or after `k`.
pub proof fn lemma_first_index_from(s: Seq<char>, p: Seq<char>, k: int)
    requires
        0 <= k,
    ensures
        match first_index_from(s, p, k) {
            Some(i) => k <= i && occurs_at(s, p, i) && forall|j: int|
                k <= j < i ==> !occurs_at(s, p, j),
            None => forall|j: int| k <= j ==> !occurs_at(s, p, j),
        },
    decreases s.len() - k,
{
    if k + p.len() > s.len() {
    } else if occurs_at(s, p, k) {
    } else if k >= s.len() {
        assert(s.subrange(k, k + p.len()) =~= p);
    } else {
        lemma_first_index_from(s, p, k + 1);
    }
}

/// `first_index` is the least occurrence; it exists exactly when `p` occurs.
pub proof fn lemma_first_index(s: Seq<char>, p: Seq<char>)
    ensures
        match first_index(s, p) {
            Some(i) => occurs_at(s, p, i) && forall|j: int| 0 <= j < i ==> !occurs_at(s, p, j),
            None => !contains_seq(s, p),
        },
        first_index(s, p) is Some <==> contains_seq(s, p),
{
    lemma_first_index_from(s, p, 0);
}

/// `last_index_upto` finds the greatest occurrence at or before `k`.
pub proof fn lemma_last_index_upto(s: Seq<char>, p: Seq<char>, k: int)
    ensures
        match last_index_upto(s, p, k) {
            Some(i) => 0 <= i <= k && occurs_at(s, p, i) && forall|j: int|
                i < j <= k ==> !occurs_at(s, p, j),
            None => forall|j: int| j <= k ==> !occurs_at(s, p, j),
        },
    decreases k + 1,
{
    if k < 0 {
    } else if occurs_at(s, p, k) {
    } else {
        lemma_last_index_upto(s, p, k - 1);
    }
}

/// Whether `p` occurs in `s` at `i`.
pub fn matches_at(s: &[char], p: &[char], i: usize) -> (r: bool)
    ensures
        r == occurs_at(s@, p@, i as int),
{
    if i > s.len() || p.len() > s.len() - i {
        return false;
    }
    let n = s.len();
    let mut k: usize = 0;
    while k < p.len()
        invariant
            n == s@.len(),
            i + p@.len() <= s@.len(),
            k <= p@.len(),
            forall|t: int| 0 <= t < k ==> s@[i + t] == p@[t],
        decreases p.len() - k,
    {
        assert(i + k < s@.len());
        if s[i + k] != p[k] {
            assert(s@.subrange(i as int, i + p@.len())[k as int] != p@[k as int]);
            return false;
        }
        k += 1;
    }
    assert(s@.subrange(i as int, i + p@.len()) =~= p@);
    true
}

/// `s.find(p)`, as a character index.
pub fn find_chars(s: &[char], p: &[char]) -> (r: Option<usize>)
    ensures
        match r {
            Some(i) => first_index(s@, p@) == Some(i as int),
            None => first_index(s@, p@) == None::<int>,
        },
{
    find_from_chars(s, p, 0)
}

/// `s[k..].find(p)`, as an index into `s`.
pub fn find_from_chars(s: &[char], p: &[char], k: usize) -> (r: Option<usize>)
    ensures
        match r {
            Some(i) => first_index_from(s@, p@, k as int) == Some(i as int),
            None => first_index_from(s@, p@, k as int) == None::<int>,
        },
{
    let mut i = k;
    while i <= s.len() && p.len() <= s.len() - i
        invariant
            k <= i,
            first_index_from(s@, p@, k as int) == first_index_from(s@, p@, i as int),
        decreases s.len() + 1 - i,
    {
        if matches_at(s, p, i) {
            return Some(i);
        }
        if i == s.len() {
            assert(s@.subrange(i as int, i + p@.len()) =~= p@);
        }
        i += 1;
    }
    None
}

/// `s.rfind(p)`, as a character index.
pub fn rfind_chars(s: &[char], p: &[char]) -> (r: Option<usize>)
    ensures
        match r {
            Some(i) => last_index(s@, p@) == Some(i as int),
            None => last_index(s@, p@) == None::<int>,
        },
{
    if p.len() > s.len() {
        return None;
    }
    let mut k: usize = s.len() - p.len();
    loop
        invariant
            k + p@.len() <= s@.len(),
            last_index(s@, p@) == last_index_upto(s@, p@, k as int),
        decreases k,
    {
        if matches_at(s, p, k) {
            return Some(k);
        }
        if k == 0 {
            assert(last_index_upto(s@, p@, -1) is None);
            return None;
        }
        k -= 1;
    }
}

/// `s.contains(p)`.
pub fn contains_chars(s: &[char], p: &[char]) -> (r: bool)
    ensures
        r == contains_seq(s@, p@),
{
    proof {
        lemma_first_index(s@, p@);
    }
    find_chars(s, p).is_some()
}

/// `s.contains(lit)` for a literal.
pub fn contains_str(s: &[char], lit: &str) -> (r: bool)
    ensures
        r == contains_seq(s@, lit@),
{
    let p = chars_of(lit);
    contains_chars(s, p.as_slice())
}

/// `s.contains(c)` for a single character.
pub fn contains_char(s: &[char], c: char) -> (r: bool)
    ensures
        r == contains_seq(s@, seq![c]),
{
    let p = vec![c];
    assert(p@ == seq![c]);
    contains_chars(s, p.as_slice())
}

/// `s.starts_with(p)`.
pub fn starts_with_chars(s: &[char], p: &[char]) -> (r: bool)
    ensures
        r == starts_with(s@, p@),
{
    let r = matches_at(s, p, 0);
    proof {
        if starts_with(s@, p@) {
            assert(s@.subrange(0, p@.len() as int) == s@.take(p@.len() as int));
        }
        if r {
            assert(s@.subrange(0, p@.len() as int) == s@.take(p@.len() as int));
        }
    }
    r
}

/// `s.ends_with(p)`.
pub fn ends_with_chars(s: &[char], p: &[char]) -> (r: bool)
    ensures
        r == ends_with(s@, p@),
{
    if p.len() > s.len() {
        return false;
    }
    let r = matches_at(s, p, s.len() - p.len());
    proof {
        assert(s@.subrange(s@.len() - p@.len(), s@.len() as int) == s@.skip(
            s@.len() - p@.len(),
        ));
    }
    r
}

} // verus!

verus! {

// ── words (whitespace-separated tokens) ─────────────────────────────

/// Index of the first whitespace character at or after `i` (or `len`).
pub open spec fn word_end(s: Seq<char>, i: int) -> int
    decreases s.len() - i,
{
    if i < 0 || i >= s.len() {
        s.len() as int
    } else if is_ws(s[i]) {
        i
    } else {
        word_end(s, i + 1)
    }
}

pub proof fn lemma_word_end(s: Seq<char>, i: int)
    requires
        0 <= i <= s.len(),
    ensures
        i <= word_end(s, i) <= s.len(),
        i < s.len() && !is_ws(s[i]) ==> i < word_end(s, i),
        forall|k: int| i <= k < word_end(s, i) ==> !is_ws(#[trigger] s[k]),
        word_end(s, i) < s.len() ==> is_ws(s[word_end(s, i)]),
    decreases s.len() - i,
{
    if i < s.len() && !is_ws(s[i]) {
        lemma_word_end(s, i + 1);
    }
}

/// `s.find(char::is_whitespace).unwrap_or(s.len())`, from index `i`.
pub fn word_end_index(s: &[char], i: usize) -> (e: usize)
    requires
        i <= s@.len(),
    ensures
        e as int == word_end(s@, i as int),
        i <= e <= s@.len(),
{
    proof {
        lemma_word_end(s@, i as int);
    }
    let mut e = i;
    while e < s.len() && !is_whitespace(s[e])
        invariant
            i <= e <= s@.len(),
            word_end(s@, i as int) == word_end(s@, e as int),
        decreases s.len() - e,
    {
        e += 1;
    }
    e
}

// ── lines ───────────────────────────────────────────────────────────

/// `l` without one trailing carriage return.
pub open spec fn strip_cr(l: Seq<char>) -> Seq<char> {
    if l.len() > 0 && l.last() == '\r' {
        l.drop_last()
    } else {
        l
    }
}

/// The lines of `s` (`str::lines`): pieces separated by `'\n'`, each
/// without the `'\r'` of a `"\r\n"` ending; a final line ending yields no
/// empty last line.
pub open spec fn lines(s: Seq<char>) -> Seq<Seq<char>>
    decreases s.len(),
{
    if s.len() == 0 {
        Seq::empty()
    } else {
        match first_index(s, seq!['\n']) {
            Some(i) => {
                proof {
                    lemma_first_index(s, seq!['\n']);
                }
                seq![strip_cr(s.take(i))] + lines(s.skip(i + 1))
            },
            None => seq![s],
        }
    }
}

/// The views of a vector of character vectors.
pub open spec fn views(ls: Seq<Vec<char>>) -> Seq<Seq<char>> {
    ls.map_values(|l: Vec<char>| l@)
}

/// `s.lines()`, each line as its own vector.
pub fn lines_of(s: &[char]) -> (ls: Vec<Vec<char>>)
    ensures
        views(ls@) == lines(s@),
{
    let mut ls: Vec<Vec<char>> = Vec::new();
    let nl = vec!['\n'];
    let mut pos: usize = 0;
    assert(s@.skip(0) == s@);
    while pos < s.len()
        invariant
            pos <= s@.len(),
            nl@ == seq!['\n'],
            lines(s@) == views(ls@) + lines(s@.skip(pos as int)),
        decreases s.len() - pos,
    {
        let rest = slice_chars(s, pos, s.len());
        assert(rest@ == s@.skip(pos as int));
        match find_chars(rest.as_slice(), nl.as_slice()) {
            Some(i) => {
                proof {
                    lemma_first_index(rest@, seq!['\n']);
                }
                let mut line = slice_chars(rest.as_slice(), 0, i);
                if i > 0 && line[i - 1] == '\r' {
                    line.pop();
                }
                assert(line@ == strip_cr(rest@.take(i as int)));
                let ghost old_ls = views(ls@);
                ls.push(line);
                assert(views(ls@) =~= old_ls.push(strip_cr(rest@.take(i as int))));
                assert(rest@.skip(i + 1) == s@.skip(pos + i + 1));
                pos = pos + i + 1;
            },
            None => {
                let ghost old_ls = views(ls@);
                ls.push(rest);
                assert(views(ls@) =~= old_ls.push(s@.skip(pos as int)));
                assert(s@.skip(s@.len() as int) == Seq::<char>::empty());
                pos = s.len();
            },
        }
    }
    assert(s@.skip(pos as int) == Seq::<char>::empty());
    ls
}

// ── other shapes ────────────────────────────────────────────────────

/// `s.trim_start_matches(c)`.
pub open spec fn strip_leading(s: Seq<char>, c: char) -> Seq<char>
    decreases s.len(),
{
    if s.len() > 0 && s[0] == c {
        strip_leading(s.drop_first(), c)
    } else {
        s
    }
}

/// `s.trim_start_matches(c)` as a new vector.
pub fn strip_leading_chars(s: &[char], c: char) -> (v: Vec<char>)
    ensures
        v@ == strip_leading(s@, c),
{
    let mut i: usize = 0;
    assert(s@.skip(0) == s@);
    while i < s.len() && s[i] == c
        invariant
            i <= s@.len(),
            strip_leading(s@, c) == strip_leading(s@.skip(i as int), c),
        decreases s.len() - i,
    {
        assert(s@.skip(i as int).drop_first() == s@.skip(i + 1));
        i += 1;
    }
    slice_chars(s, i, s.len())
}

/// Decimal digits of `n` (`n.to_string()`).
pub open spec fn decimal(n: nat) -> Seq<char>
    decreases n,
{
    if n < 10 {
        seq![digit_char(n)]
    } else {
        decimal(n / 10).push(digit_char(n % 10))
    }
}

/// The ASCII digit for `d < 10`.
pub open spec fn digit_char(d: nat) -> char {
    ((48 + d) as u8) as char
}

/// `n.to_string()` as characters.
pub fn decimal_chars(n: u128) -> (v: Vec<char>)
    ensures
        v@ == decimal(n as nat),
    decreases n,
{
    if n < 10 {
        let c = (48u8 + (n as u8)) as char;
        let v = vec![c];
        assert(v@ == seq![c]);
        v
    } else {
        let mut v = decimal_chars(n / 10);
        let d = n % 10;
        let c = (48u8 + (d as u8)) as char;
        v.push(c);
        v
    }
}

} // verus!

verus! {

// ── UTF-8 byte lengths ──────────────────────────────────────────────

/// The number of bytes of the UTF-8 encoding of `c`.
pub open spec fn utf8_width(c: char) -> nat {
    let u = c as u32;
    if u <= 0x7F {
        1
    } else if u <= 0x7FF {
        2
    } else if u <= 0xFFFF {
        3
    } else {
        4
    }
}

/// The number of bytes of the UTF-8 encoding of `s` (`str::len`).
pub open spec fn utf8_len(s: Seq<char>) -> nat
    decreases s.len(),
{
    if s.len() == 0 {
        0
    } else {
        utf8_width(s[0]) + utf8_len(s.drop_first())
    }
}

/// UTF-8 length is additive.
pub proof fn lemma_utf8_len_concat(a: Seq<char>, b: Seq<char>)
    ensures
        utf8_len(a + b) == utf8_len(a) + utf8_len(b),
    decreases a.len(),
{
    if a.len() == 0 {
        assert(a + b =~= b);
    } else {
        assert((a + b).drop_first() =~= a.drop_first() + b);
        lemma_utf8_len_concat(a.drop_first(), b);
    }
}

/// `utf8_len` is the length of vstd's `encode_utf8`, i.e. the byte length.
pub proof fn lemma_utf8_len_encode(s: Seq<char>)
    ensures
        utf8_len(s) == vstd::utf8::encode_utf8(s).len(),
    decreases s.len(),
{
    if s.len() > 0 {
        let c = s[0];
        vstd::utf8::char_is_scalar(c);
        lemma_utf8_len_encode(s.drop_first());
    }
}

/// A string of `n` characters has at most `4 n` bytes.
pub proof fn lemma_utf8_len_bound(s: Seq<char>)
    ensures
        utf8_len(s) <= 4 * s.len(),
    decreases s.len(),
{
    if s.len() > 0 {
        lemma_utf8_len_bound(s.drop_first());
    }
}

/// The byte offset of character index `i` of `s`.
pub fn byte_offset(s: &[char], i: usize) -> (n: u128)
    requires
        i <= s@.len(),
    ensures
        n == utf8_len(s@.take(i as int)),
{
    let mut n: u128 = 0;
    let mut k: usize = 0;
    while k < i
        invariant
            k <= i <= s@.len(),
            n == utf8_len(s@.take(k as int)),
        decreases i - k,
    {
        let c = s[k];
        let u = c as u32;
        let w: u128 = if u <= 0x7F {
            1
        } else if u <= 0x7FF {
            2
        } else if u <= 0xFFFF {
            3
        } else {
            4
        };
        proof {
            assert(s@.take(k + 1) =~= s@.take(k as int) + seq![c]);
            lemma_utf8_len_concat(s@.take(k as int), seq![c]);
            assert(seq![c].drop_first() =~= Seq::<char>::empty());
            assert(utf8_len(Seq::<char>::empty()) == 0);
            assert(seq![c][0] == c);
            assert(utf8_len(seq![c]) == utf8_width(c));
            lemma_utf8_len_bound(s@.take(k as int));
        }
        n = n + w;
        k += 1;
    }
    n
}

} // verus!

verus! {

// ── replacing ───────────────────────────────────────────────────────

/// `s.replace(p, r)` for a non-empty pattern: every non-overlapping
/// occurrence of `p`, from left to right, replaced by `r`.
pub open spec fn replace_all(s: Seq<char>, p: Seq<char>, r: Seq<char>) -> Seq<char>
    decreases s.len(),
{
    if p.len() == 0 {
        s
    } else {
        match first_index(s, p) {
            Some(i) => {
                proof {
                    lemma_first_index(s, p);
                }
                s.take(i) + r + replace_all(s.skip(i + p.len()), p, r)
            },
            None => s,
        }
    }
}

/// `s.replacen(p, r, 1)`: the first occurrence of `p` replaced by `r`.
pub open spec fn replace_first(s: Seq<char>, p: Seq<char>, r: Seq<char>) -> Seq<char> {
    match first_index(s, p) {
        Some(i) => s.take(i) + r + s.skip(i + p.len()),
        None => s,
    }
}

/// `s.replace(p, r)` as a new vector.
pub fn replace_all_chars(s: &[char], p: &[char], r: &[char]) -> (v: Vec<char>)
    requires
        p@.len() > 0,
    ensures
        v@ == replace_all(s@, p@, r@),
{
    let mut out: Vec<char> = Vec::new();
    let mut rest = slice_chars(s, 0, s.len());
    assert(rest@ == s@);
    loop
        invariant
            p@.len() > 0,
            replace_all(s@, p@, r@) == out@ + replace_all(rest@, p@, r@),
        decreases rest@.len(),
    {
        match find_chars(rest.as_slice(), p) {
            Some(i) => {
                proof {
                    lemma_first_index(rest@, p@);
                }
                let n = rest.len();
                assert(i + p@.len() <= n);
                let head = slice_chars(rest.as_slice(), 0, i);
                let tail = slice_chars(rest.as_slice(), i + p.len(), rest.len());
                assert(head@ == rest@.take(i as int));
                assert(tail@ == rest@.skip(i + p@.len()));
                let ghost old_out = out@;
                push_all(&mut out, head.as_slice());
                push_all(&mut out, r);
                assert(old_out + (rest@.take(i as int) + r@ + replace_all(tail@, p@, r@))
                    =~= out@ + replace_all(tail@, p@, r@));
                rest = tail;
            },
            None => {
                let ghost old_out = out@;
                push_all(&mut out, rest.as_slice());
                return out;
            },
        }
    }
}

/// `s.replacen(p, r, 1)` as a new vector.
pub fn replace_first_chars(s: &[char], p: &[char], r: &[char]) -> (v: Vec<char>)
    ensures
        v@ == replace_first(s@, p@, r@),
{
    match find_chars(s, p) {
        Some(i) => {
            proof {
                lemma_first_index(s@, p@);
            }
            let n = s.len();
            assert(i + p@.len() <= n);
            let mut out = slice_chars(s, 0, i);
            push_all(&mut out, r);
            let tail = slice_chars(s, i + p.len(), s.len());
            push_all(&mut out, tail.as_slice());
            assert(s@.subrange(0, i as int) == s@.take(i as int));
            assert(s@.subrange(i + p@.len(), s@.len() as int) == s@.skip(i + p@.len()));
            out
        },
        None => slice_chars(s, 0, s.len()),
    }
}

} // verus!
