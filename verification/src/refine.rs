//! `<AI_EDIT instruction="…">…</AI_EDIT>` markers: parsing and applying
//! partial rewrites.

use vstd::prelude::*;
use crate::text::{
    chars_of, decimal, decimal_chars, find_from_chars, first_index_from, lemma_first_index_from,
    push_all, push_str, slice_chars, string_of, utf8_len, byte_offset, replace_first,
    replace_first_chars, contains_seq, ends_with, occurs_at, starts_with,
};

verus! {

broadcast use vstd::string::group_string_axioms;

/// System prompt for rewriting one marked fragment.
pub const REFINE_SYSTEM_PROMPT: &'static str = "你是一个严苛的文本重构引擎。\n请根据用户给出的修改指令，重写指定的文本片段。\n\n要求：\n1. 只输出重写后的文本\n2. 不要带有任何解释、问候或 Markdown 代码块包裹\n3. 必须与原有的行文风格无缝衔接\n4. 严格遵循修改指令的要求";

/// One `AI_EDIT` marker.
pub struct AiEdit {
    /// The `instruction` attribute.
    pub instruction: String,
    /// The text between the opening and the closing tag.
    pub original: String,
    /// The whole marker, tags included.
    pub full_match: String,
}

/// The view of an [`AiEdit`]: (instruction, original, full_match).
pub open spec fn edit_view(e: AiEdit) -> (Seq<char>, Seq<char>, Seq<char>) {
    (e.instruction@, e.original@, e.full_match@)
}

/// An error message that ends with a byte position: `"<text> (位置 <n>)"`.
pub open spec fn positioned(text: Seq<char>, n: nat) -> Seq<char> {
    text + " (位置 "@ + decimal(n) + ")"@
}

/// The markers of `s` from character index `pos` on, or the first error.
/// Positions in messages are byte offsets into `s`.
pub open spec fn edits_from(s: Seq<char>, pos: int) -> Result<
    Seq<(Seq<char>, Seq<char>, Seq<char>)>,
    Seq<char>,
>
    decreases s.len() - pos,
{
    if pos < 0 || pos > s.len() {
        Ok(Seq::empty())
    } else {
        match first_index_from(s, "<AI_EDIT "@, pos) {
            None => Ok(Seq::empty()),
            Some(open) => match first_index_from(s, "instruction=\""@, open) {
                None => Err(
                    positioned("AI_EDIT 标签缺少 instruction 属性"@, utf8_len(s.take(open))),
                ),
                Some(ik) => {
                    let inst_start = ik + "instruction=\""@.len();
                    match first_index_from(s, "\""@, inst_start) {
                        None => Err(
                            positioned("instruction 属性引号未闭合"@, utf8_len(s.take(inst_start))),
                        ),
                        Some(inst_end) => match first_index_from(s, ">"@, inst_end) {
                            None => Err(
                                positioned("AI_EDIT 开标签未闭合"@, utf8_len(s.take(open))),
                            ),
                            Some(gt) => {
                                let tag_end = gt + ">"@.len();
                                match first_index_from(s, "</AI_EDIT>"@, tag_end) {
                                    None => Err(
                                        positioned(
                                            "未找到匹配的 </AI_EDIT>"@,
                                            utf8_len(s.take(open)),
                                        ),
                                    ),
                                    Some(cs) => {
                                        let ce = cs + "</AI_EDIT>"@.len();
                                        proof {
                                            lemma_first_index_from(s, "<AI_EDIT "@, pos);
                                            lemma_first_index_from(s, "instruction=\""@, open);
                                            lemma_first_index_from(s, "\""@, inst_start);
                                            lemma_first_index_from(s, ">"@, inst_end);
                                            lemma_first_index_from(s, "</AI_EDIT>"@, tag_end);
                                            reveal_strlit(">");
                                            reveal_strlit("</AI_EDIT>");
                                            reveal_strlit("instruction=\"");
                                        }
                                        let e = (
                                            s.subrange(inst_start, inst_end),
                                            s.subrange(tag_end, cs),
                                            s.subrange(open, ce),
                                        );
                                        match edits_from(s, ce) {
                                            Ok(rest) => Ok(seq![e] + rest),
                                            Err(m) => Err(m),
                                        }
                                    },
                                }
                            },
                        },
                    }
                },
            },
        }
    }
}

/// All `AI_EDIT` markers of `s`, in order; an error when a marker is
/// malformed or when there is none.
pub open spec fn ai_edits(s: Seq<char>) -> Result<Seq<(Seq<char>, Seq<char>, Seq<char>)>, Seq<char>> {
    match edits_from(s, 0) {
        Ok(es) => if es.len() == 0 {
            Err("未找到 AI_EDIT 标记"@)
        } else {
            Ok(es)
        },
        Err(m) => Err(m),
    }
}

/// The views of parsed markers.
pub open spec fn edit_views(es: Seq<AiEdit>) -> Seq<(Seq<char>, Seq<char>, Seq<char>)> {
    es.map_values(|e: AiEdit| edit_view(e))
}

/// The view of a parse result.
pub open spec fn parse_view(r: Result<Vec<AiEdit>, String>) -> Result<
    Seq<(Seq<char>, Seq<char>, Seq<char>)>,
    Seq<char>,
> {
    match r {
        Ok(v) => Ok(edit_views(v@)),
        Err(m) => Err(m@),
    }
}

/// `done` followed by the markers found from some position on.
pub open spec fn after_done(
    done: Seq<(Seq<char>, Seq<char>, Seq<char>)>,
    r: Result<Seq<(Seq<char>, Seq<char>, Seq<char>)>, Seq<char>>,
) -> Result<Seq<(Seq<char>, Seq<char>, Seq<char>)>, Seq<char>> {
    match r {
        Ok(rest) => Ok(done + rest),
        Err(m) => Err(m),
    }
}

fn positioned_message(text: &str, n: u128) -> (m: String)
    ensures
        m@ == positioned(text@, n as nat),
{
    let mut v: Vec<char> = Vec::new();
    push_str(&mut v, text);
    push_str(&mut v, " (位置 ");
    let d = decimal_chars(n);
    push_all(&mut v, d.as_slice());
    push_str(&mut v, ")");
    string_of(v.as_slice())
}

/// Parses every `<AI_EDIT instruction="…">…</AI_EDIT>` marker of `content`.
pub fn parse_ai_edits(content: &str) -> (r: Result<Vec<AiEdit>, String>)
    ensures
        parse_view(r) == ai_edits(content@),
{
    let s = chars_of(content);
    let s = s.as_slice();
    let open_tag = chars_of("<AI_EDIT ");
    let inst_key = chars_of("instruction=\"");
    let quote = chars_of("\"");
    let gt = chars_of(">");
    let close_tag = chars_of("</AI_EDIT>");
    let mut edits: Vec<AiEdit> = Vec::new();
    let mut pos: usize = 0;
    loop
        invariant
            pos <= s@.len(),
            s@ == content@,
            open_tag@ == "<AI_EDIT "@,
            inst_key@ == "instruction=\""@,
            quote@ == "\""@,
            gt@ == ">"@,
            close_tag@ == "</AI_EDIT>"@,
            edits_from(s@, 0) == after_done(edit_views(edits@), edits_from(s@, pos as int)),
        ensures
            edits_from(s@, 0) == after_done(edit_views(edits@), edits_from(s@, pos as int)),
            edits_from(s@, pos as int) == Ok::<Seq<(Seq<char>, Seq<char>, Seq<char>)>, Seq<char>>(
                Seq::empty(),
            ),
        decreases s.len() - pos,
    {
        let open = match find_from_chars(s, open_tag.as_slice(), pos) {
            Some(o) => o,
            None => break,
        };
        proof {
            lemma_first_index_from(s@, open_tag@, pos as int);
        }
        let ik = match find_from_chars(s, inst_key.as_slice(), open) {
            Some(i) => i,
            None => {
                let n = byte_offset(s, open);
                return Err(positioned_message("AI_EDIT 标签缺少 instruction 属性", n));
            },
        };
        proof {
            lemma_first_index_from(s@, inst_key@, open as int);
        }
        let inst_start = ik + inst_key.len();
        let inst_end = match find_from_chars(s, quote.as_slice(), inst_start) {
            Some(i) => i,
            None => {
                let n = byte_offset(s, inst_start);
                return Err(positioned_message("instruction 属性引号未闭合", n));
            },
        };
        proof {
            lemma_first_index_from(s@, quote@, inst_start as int);
        }
        let g = match find_from_chars(s, gt.as_slice(), inst_end) {
            Some(i) => i,
            None => {
                let n = byte_offset(s, open);
                return Err(positioned_message("AI_EDIT 开标签未闭合", n));
            },
        };
        proof {
            lemma_first_index_from(s@, gt@, inst_end as int);
        }
        let tag_end = g + gt.len();
        let cs = match find_from_chars(s, close_tag.as_slice(), tag_end) {
            Some(i) => i,
            None => {
                let n = byte_offset(s, open);
                return Err(positioned_message("未找到匹配的 </AI_EDIT>", n));
            },
        };
        proof {
            lemma_first_index_from(s@, close_tag@, tag_end as int);
        }
        let ce = cs + close_tag.len();
        let instruction = string_of(slice_chars(s, inst_start, inst_end).as_slice());
        let original = string_of(slice_chars(s, tag_end, cs).as_slice());
        let full_match = string_of(slice_chars(s, open, ce).as_slice());
        let ghost old_done = edit_views(edits@);
        let edit = AiEdit { instruction, original, full_match };
        let ghost ev = edit_view(edit);
        edits.push(edit);
        proof {
            assert(edit_views(edits@) =~= old_done.push(ev));
            reveal_strlit(">");
            reveal_strlit("</AI_EDIT>");
            reveal_strlit("instruction=\"");
            assert(ev == (
                s@.subrange(inst_start as int, inst_end as int),
                s@.subrange(tag_end as int, cs as int),
                s@.subrange(open as int, ce as int),
            ));
            match edits_from(s@, ce as int) {
                Ok(rest) => {
                    assert(old_done + (seq![ev] + rest) =~= old_done.push(ev) + rest);
                },
                Err(m) => {},
            }
        }
        pos = ce;
    }
    if edits.len() == 0 {
        return Err(string_of(chars_of("未找到 AI_EDIT 标记").as_slice()));
    }
    proof {
        assert(edit_views(edits@) + Seq::<(Seq<char>, Seq<char>, Seq<char>)>::empty() =~= edit_views(edits@));
    }
    Ok(edits)
}


/// The content with the first occurrence of an edit's marker replaced by
/// its rewrite (`str::replacen(.., 1)`).
pub fn apply_rewrite(content: &str, full_match: &str, rewritten: &str) -> (r: String)
    ensures
        r@ == replace_first(content@, full_match@, rewritten@),
{
    let v = replace_first_chars(
        chars_of(content).as_slice(),
        chars_of(full_match).as_slice(),
        chars_of(rewritten).as_slice(),
    );
    string_of(v.as_slice())
}

/// The content after each marker in turn is replaced, at its first
/// occurrence, by its rewrite: `markers[0]` first, then `markers[1]` in the
/// result, and so on.
pub open spec fn rewrites_applied(
    content: Seq<char>,
    markers: Seq<Seq<char>>,
    rewrites: Seq<Seq<char>>,
) -> Seq<char>
    decreases markers.len(),
{
    if markers.len() == 0 {
        content
    } else {
        replace_first(
            rewrites_applied(content, markers.drop_last(), rewrites.drop_last()),
            markers.last(),
            rewrites.last(),
        )
    }
}

/// The whole markers of `edits`, in order.
pub open spec fn full_matches(edits: Seq<AiEdit>) -> Seq<Seq<char>> {
    edits.map_values(|e: AiEdit| e.full_match@)
}

/// The views of `strings`, in order.
pub open spec fn string_views(strings: Seq<String>) -> Seq<Seq<char>> {
    strings.map_values(|t: String| t@)
}

/// The content with every edit applied in order, `rewritten[i]` being the
/// rewrite of `edits[i]` (see [`apply_rewrite`]).
pub fn apply_rewrites(content: &str, edits: &Vec<AiEdit>, rewritten: &Vec<String>) -> (r: String)
    requires
        rewritten@.len() == edits@.len(),
    ensures
        r@ == rewrites_applied(content@, full_matches(edits@), string_views(rewritten@)),
{
    let ghost ms = full_matches(edits@);
    let ghost rs = string_views(rewritten@);
    let mut cur = string_of(chars_of(content).as_slice());
    let mut i: usize = 0;
    assert(ms.take(0).len() == 0);
    while i < edits.len()
        invariant
            i <= edits@.len(),
            rewritten@.len() == edits@.len(),
            ms == full_matches(edits@),
            rs == string_views(rewritten@),
            cur@ == rewrites_applied(content@, ms.take(i as int), rs.take(i as int)),
        decreases edits.len() - i,
    {
        let next = apply_rewrite(
            cur.as_str(),
            edits[i].full_match.as_str(),
            rewritten[i].as_str(),
        );
        assert(ms.take(i + 1).drop_last() == ms.take(i as int));
        assert(rs.take(i + 1).drop_last() == rs.take(i as int));
        assert(ms.take(i + 1).last() == edits@[i as int].full_match@);
        assert(rs.take(i + 1).last() == rewritten@[i as int]@);
        cur = next;
        i += 1;
    }
    assert(ms.take(edits@.len() as int) == ms);
    assert(rs.take(edits@.len() as int) == rs);
    cur
}


/// A marker as found: it opens with `<AI_EDIT `, holds
/// `instruction="<instruction>"`, and ends with its original text and
/// `</AI_EDIT>`; the instruction has no `"` and the original text no
/// closing tag.
pub open spec fn well_formed_marker(m: (Seq<char>, Seq<char>, Seq<char>)) -> bool {
    &&& starts_with(m.2, "<AI_EDIT "@)
    &&& ends_with(m.2, m.1 + "</AI_EDIT>"@)
    &&& contains_seq(m.2, "instruction=\""@ + m.0 + "\""@)
    &&& forall|i: int| 0 <= i < m.0.len() ==> #[trigger] m.0[i] != '"'
    &&& !contains_seq(m.1, "</AI_EDIT>"@)
}

/// The markers occur in `s` in list order, each after the end of the one
/// before, the first at or after `pos`.
pub open spec fn markers_in_order(
    s: Seq<char>,
    es: Seq<(Seq<char>, Seq<char>, Seq<char>)>,
    pos: int,
) -> bool
    decreases es.len(),
{
    if es.len() == 0 {
        true
    } else {
        exists|p: int|
            p >= pos && #[trigger] occurs_at(s, es[0].2, p) && markers_in_order(
                s,
                es.drop_first(),
                p + es[0].2.len(),
            )
    }
}

/// The markers found are well formed and occur in the text in order,
/// without overlapping.
pub proof fn law_markers_well_formed_in_order(s: Seq<char>, pos: int)
    ensures
        edits_from(s, pos) matches Ok(es) ==> markers_in_order(s, es, pos) && forall|k: int|
            0 <= k < es.len() ==> well_formed_marker(#[trigger] es[k]),
    decreases s.len() - pos,
{
    reveal_strlit("<AI_EDIT ");
    reveal_strlit(">");
    reveal_strlit("</AI_EDIT>");
    reveal_strlit("instruction=\"");
    reveal_strlit("\"");
    if 0 <= pos <= s.len() {
        lemma_first_index_from(s, "<AI_EDIT "@, pos);
        match first_index_from(s, "<AI_EDIT "@, pos) {
            None => {},
            Some(open) => {
                lemma_first_index_from(s, "instruction=\""@, open);
                match first_index_from(s, "instruction=\""@, open) {
                    None => {},
                    Some(ik) => {
                        let inst_start = ik + 13;
                        lemma_first_index_from(s, "\""@, inst_start);
                        match first_index_from(s, "\""@, inst_start) {
                            None => {},
                            Some(inst_end) => {
                                lemma_first_index_from(s, ">"@, inst_end);
                                match first_index_from(s, ">"@, inst_end) {
                                    None => {},
                                    Some(gt) => {
                                        let tag_end = gt + 1;
                                        lemma_first_index_from(s, "</AI_EDIT>"@, tag_end);
                                        match first_index_from(s, "</AI_EDIT>"@, tag_end) {
                                            None => {},
                                            Some(cs) => {
                                                let ce = cs + 10;
                                                law_markers_well_formed_in_order(s, ce);
                                                let inst = s.subrange(inst_start, inst_end);
                                                let orig = s.subrange(tag_end, cs);
                                                let full = s.subrange(open, ce);
                                                let m = (inst, orig, full);
                                                // the quote that ends the instruction is no '>'
                                                assert(s.subrange(inst_end, inst_end + 1)
                                                    =~= "\""@);
                                                if gt == inst_end {
                                                    assert(s.subrange(gt, gt + 1) =~= ">"@);
                                                }
                                                assert(full.take(9) =~= s.subrange(open, open + 9));
                                                assert(full.skip(full.len() - (orig.len() + 10))
                                                    =~= orig + "</AI_EDIT>"@) by {
                                                    assert(s.subrange(cs, cs + 10)
                                                        =~= "</AI_EDIT>"@);
                                                }
                                                let key = "instruction=\""@ + inst + "\""@;
                                                assert(full.subrange(
                                                    ik - open,
                                                    ik - open + key.len(),
                                                ) =~= key) by {
                                                    assert(s.subrange(ik, ik + 13)
                                                        =~= "instruction=\""@);
                                                }
                                                assert(occurs_at(full, key, ik - open));
                                                assert forall|i: int| 0 <= i < inst.len() implies
                                                    #[trigger] inst[i] != '"' by {
                                                    let j = inst_start + i;
                                                    assert(!occurs_at(s, "\""@, j));
                                                    if s[j] == '"' {
                                                        assert(s.subrange(j, j + 1) =~= "\""@);
                                                    }
                                                }
                                                if contains_seq(orig, "</AI_EDIT>"@) {
                                                    let q = choose|q: int|
                                                        occurs_at(orig, "</AI_EDIT>"@, q);
                                                    assert(s.subrange(tag_end + q, tag_end + q + 10)
                                                        =~= orig.subrange(q, q + 10));
                                                    assert(occurs_at(s, "</AI_EDIT>"@, tag_end + q));
                                                }
                                                assert(well_formed_marker(m));
                                                assert(occurs_at(s, full, open));
                                                match edits_from(s, ce) {
                                                    Ok(rest) => {
                                                        let es = seq![m] + rest;
                                                        assert(es.drop_first() =~= rest);
                                                        assert(es[0] == m);
                                                        assert(full.len() == ce - open);
                                                        assert(markers_in_order(s, es, pos));
                                                        assert forall|k: int| 0 <= k < es.len()
                                                            implies well_formed_marker(
                                                            #[trigger] es[k],
                                                        ) by {
                                                            if k > 0 {
                                                                assert(es[k] == rest[k - 1]);
                                                            }
                                                        }
                                                    },
                                                    Err(_) => {},
                                                }
                                            },
                                        }
                                    },
                                }
                            },
                        }
                    },
                }
            },
        }
    }
}


/// A successful parse finds at least one marker; the markers are well
/// formed and occur in the content in order, without overlapping.
pub proof fn law_parsed_markers(content: Seq<char>)
    ensures
        ai_edits(content) matches Ok(es) ==> es.len() >= 1 && markers_in_order(content, es, 0)
            && forall|k: int| 0 <= k < es.len() ==> well_formed_marker(#[trigger] es[k]),
{
    law_markers_well_formed_in_order(content, 0);
}

/// The markers lie in `s` from `pos` on as a parse finds them: each begins
/// at the first `<AI_EDIT ` after the end of the one before (the first at
/// the first `<AI_EDIT ` at or after `pos`), and no `<AI_EDIT ` follows the
/// last.  So every opening tag from `pos` on begins a marker or lies inside
/// one.
pub open spec fn markers_cover(
    s: Seq<char>,
    es: Seq<(Seq<char>, Seq<char>, Seq<char>)>,
    pos: int,
) -> bool
    decreases es.len(),
{
    if es.len() == 0 {
        forall|i: int| i >= pos ==> !#[trigger] occurs_at(s, "<AI_EDIT "@, i)
    } else {
        exists|p: int|
            p >= pos && #[trigger] occurs_at(s, es[0].2, p) && (forall|i: int|
                pos <= i < p ==> !#[trigger] occurs_at(s, "<AI_EDIT "@, i)) && markers_cover(
                s,
                es.drop_first(),
                p + es[0].2.len(),
            )
    }
}

/// Markers found from `pos` on cover every opening tag from `pos` on.
pub proof fn law_markers_complete_from(s: Seq<char>, pos: int)
    requires
        0 <= pos,
    ensures
        edits_from(s, pos) matches Ok(es) ==> markers_cover(s, es, pos),
    decreases s.len() - pos,
{
    reveal_strlit("<AI_EDIT ");
    reveal_strlit(">");
    reveal_strlit("</AI_EDIT>");
    reveal_strlit("instruction=\"");
    reveal_strlit("\"");
    if pos > s.len() {
    } else {
        lemma_first_index_from(s, "<AI_EDIT "@, pos);
        match first_index_from(s, "<AI_EDIT "@, pos) {
            None => {},
            Some(open) => {
                lemma_first_index_from(s, "instruction=\""@, open);
                match first_index_from(s, "instruction=\""@, open) {
                    None => {},
                    Some(ik) => {
                        let inst_start = ik + 13;
                        lemma_first_index_from(s, "\""@, inst_start);
                        match first_index_from(s, "\""@, inst_start) {
                            None => {},
                            Some(inst_end) => {
                                lemma_first_index_from(s, ">"@, inst_end);
                                match first_index_from(s, ">"@, inst_end) {
                                    None => {},
                                    Some(gt) => {
                                        let tag_end = gt + 1;
                                        lemma_first_index_from(s, "</AI_EDIT>"@, tag_end);
                                        match first_index_from(s, "</AI_EDIT>"@, tag_end) {
                                            None => {},
                                            Some(cs) => {
                                                let ce = cs + 10;
                                                law_markers_complete_from(s, ce);
                                                let inst = s.subrange(inst_start, inst_end);
                                                let orig = s.subrange(tag_end, cs);
                                                let full = s.subrange(open, ce);
                                                let m = (inst, orig, full);
                                                assert(occurs_at(s, full, open));
                                                match edits_from(s, ce) {
                                                    Ok(rest) => {
                                                        let es = seq![m] + rest;
                                                        assert(es.drop_first() =~= rest);
                                                        assert(es[0] == m);
                                                        assert(full.len() == ce - open);
                                                        assert(occurs_at(s, es[0].2, open));
                                                        assert(markers_cover(s, es, pos));
                                                    },
                                                    Err(_) => {},
                                                }
                                            },
                                        }
                                    },
                                }
                            },
                        }
                    },
                }
            },
        }
    }
}

/// A successful parse misses no marker: each marker begins at the first
/// `<AI_EDIT ` after the one before, and every `<AI_EDIT ` of the content
/// begins a marker or lies inside one (an opening tag inside a marker's
/// text or instruction is part of that marker).
pub proof fn law_parse_is_complete(content: Seq<char>)
    ensures
        ai_edits(content) matches Ok(es) ==> markers_cover(content, es, 0),
{
    law_markers_complete_from(content, 0);
}

} // verus!
