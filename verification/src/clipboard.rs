//! Windows `CF_HTML` clipboard payloads and the text handed to clipboard
//! tools.

use vstd::prelude::*;
use vstd::utf8::encode_utf8;
use crate::text::{
    byte_offset, chars_of, decimal, decimal_chars, push_all, push_str, replace_all,
    replace_all_chars, string_of, utf8_len, lemma_utf8_len_concat, trim, trim_chars,
};

verus! {

broadcast use vstd::string::group_string_axioms;

/// Byte length of the `CF_HTML` header (fixed: every offset has 10 digits).
pub const CF_HEADER_LEN: u128 = 105;

/// Byte length of [`cf_pre`].
pub const CF_PRE_LEN: u128 = 73;

/// Byte length of [`cf_post`].
pub const CF_POST_LEN: u128 = 36;

/// The HTML that opens the document, up to the fragment.
pub open spec fn cf_pre() -> Seq<char> {
    "<html>\r\n<head><meta charset=\"utf-8\"></head>\r\n<body>\r\n<!--StartFragment-->"@
}

/// The HTML that closes the document, after the fragment.
pub open spec fn cf_post() -> Seq<char> {
    "<!--EndFragment-->\r\n</body>\r\n</html>"@
}

/// `format!("{:010}", n)`: decimal digits of `n`, zero-padded to width 10.
pub open spec fn pad10(n: nat) -> Seq<char> {
    if decimal(n).len() < 10 {
        Seq::new((10 - decimal(n).len()) as nat, |i: int| '0') + decimal(n)
    } else {
        decimal(n)
    }
}

/// StartHTML: the byte offset where the HTML document starts.
pub open spec fn cf_start_html() -> nat {
    CF_HEADER_LEN as nat
}

/// StartFragment: the byte offset of the fragment.
pub open spec fn cf_start_fragment() -> nat {
    (CF_HEADER_LEN + CF_PRE_LEN) as nat
}

/// EndFragment: the byte offset just after the fragment.
pub open spec fn cf_end_fragment(fragment: Seq<char>) -> nat {
    cf_start_fragment() + utf8_len(fragment)
}

/// EndHTML: the byte offset just after the document.
pub open spec fn cf_end_html(fragment: Seq<char>) -> nat {
    cf_end_fragment(fragment) + CF_POST_LEN as nat
}

/// The `CF_HTML` payload for `fragment`: a `Version:0.9` header with the
/// four byte offsets (StartHTML, EndHTML, StartFragment, EndFragment), then
/// the document wrapping the fragment.
pub open spec fn cf_html(fragment: Seq<char>) -> Seq<char> {
    "Version:0.9\r\nStartHTML:"@ + pad10(cf_start_html()) + "\r\nEndHTML:"@ + pad10(
        cf_end_html(fragment),
    ) + "\r\nStartFragment:"@ + pad10(cf_start_fragment()) + "\r\nEndFragment:"@ + pad10(
        cf_end_fragment(fragment),
    ) + "\r\n"@ + cf_pre() + fragment + cf_post()
}

fn push_pad10(v: &mut Vec<char>, n: u128)
    ensures
        final(v)@ == old(v)@ + pad10(n as nat),
{
    let d = decimal_chars(n);
    if d.len() < 10 {
        let mut k = d.len();
        let ghost start = v@;
        while k < 10
            invariant
                d.len() <= k <= 10,
                v@ == start + Seq::new((k - d.len()) as nat, |i: int| '0'),
            decreases 10 - k,
        {
            let ghost before = v@;
            v.push('0');
            assert(Seq::new((k + 1 - d.len()) as nat, |i: int| '0') =~= Seq::new(
                (k - d.len()) as nat,
                |i: int| '0',
            ).push('0'));
            k += 1;
        }
        push_all(v, d.as_slice());
        assert(start + Seq::new((10 - d@.len()) as nat, |i: int| '0') + d@ =~= start + (Seq::new(
            (10 - d@.len()) as nat,
            |i: int| '0',
        ) + d@));
    } else {
        push_all(v, d.as_slice());
    }
}

/// Builds the Windows `CF_HTML` clipboard format around an HTML fragment:
/// a header with byte offsets, then the HTML document.
pub fn build_cf_html(fragment: &str) -> (r: String)
    ensures
        r@ == cf_html(fragment@),
{
    let frag = chars_of(fragment);
    let frag_len = byte_offset(frag.as_slice(), frag.len());
    assert(frag@.take(frag@.len() as int) == frag@);
    let start_html: u128 = CF_HEADER_LEN;
    let start_frag: u128 = start_html + CF_PRE_LEN;
    proof {
        crate::text::lemma_utf8_len_bound(frag@);
    }
    let end_frag: u128 = start_frag + frag_len;
    let end_html: u128 = end_frag + CF_POST_LEN;
    let mut v: Vec<char> = Vec::new();
    push_str(&mut v, "Version:0.9\r\nStartHTML:");
    push_pad10(&mut v, start_html);
    push_str(&mut v, "\r\nEndHTML:");
    push_pad10(&mut v, end_html);
    push_str(&mut v, "\r\nStartFragment:");
    push_pad10(&mut v, start_frag);
    push_str(&mut v, "\r\nEndFragment:");
    push_pad10(&mut v, end_frag);
    push_str(&mut v, "\r\n");
    push_str(&mut v, "<html>\r\n<head><meta charset=\"utf-8\"></head>\r\n<body>\r\n<!--StartFragment-->");
    push_all(&mut v, frag.as_slice());
    push_str(&mut v, "<!--EndFragment-->\r\n</body>\r\n</html>");
    string_of(v.as_slice())
}


/// Characters below U+0080 take one byte each.
pub proof fn lemma_ascii_utf8_len(s: Seq<char>)
    requires
        forall|i: int| 0 <= i < s.len() ==> (#[trigger] s[i]) as u32 <= 0x7F,
    ensures
        utf8_len(s) == s.len(),
    decreases s.len(),
{
    if s.len() > 0 {
        assert(forall|i: int| 0 <= i < s.drop_first().len() ==> s.drop_first()[i] == s[i + 1]);
        lemma_ascii_utf8_len(s.drop_first());
    }
}



/// UTF-8 encoding distributes over concatenation.
pub proof fn lemma_encode_concat(a: Seq<char>, b: Seq<char>)
    ensures
        encode_utf8(a + b) == encode_utf8(a) + encode_utf8(b),
    decreases a.len(),
{
    if a.len() == 0 {
        assert(a + b =~= b);
        assert(encode_utf8(a) =~= Seq::<u8>::empty());
        assert(encode_utf8(a) + encode_utf8(b) =~= encode_utf8(b));
    } else {
        assert((a + b).drop_first() =~= a.drop_first() + b);
        lemma_encode_concat(a.drop_first(), b);
        assert(encode_utf8(a + b) =~= encode_utf8(a) + encode_utf8(b));
    }
}

/// Decimal digits are ASCII; a number below 10^k (k ≥ 1) has at most k digits.
pub proof fn lemma_decimal(n: nat, k: nat)
    ensures
        decimal(n).len() >= 1,
        forall|i: int| 0 <= i < decimal(n).len() ==> (#[trigger] decimal(n)[i]) as u32 <= 0x7F,
        k >= 1 && n < pow10(k) ==> decimal(n).len() <= k,
    decreases n,
{
    if n < 10 {
        assert(decimal(n) == seq![crate::text::digit_char(n)]);
    } else {
        let k1: nat = if k >= 1 { (k - 1) as nat } else { 0 };
        lemma_decimal(n / 10, k1);
        assert(decimal(n) == decimal(n / 10).push(crate::text::digit_char(n % 10)));
        if k >= 1 && n < pow10(k) {
            assert(pow10(k) == 10 * pow10(k1));
            assert(n / 10 < pow10(k1));
            if k1 == 0 {
                assert(pow10(0) == 1);
            }
        }
    }
}

/// `10^k`.
pub open spec fn pow10(k: nat) -> nat
    decreases k,
{
    if k == 0 {
        1
    } else {
        10 * pow10((k - 1) as nat)
    }
}

/// A padded offset below 10^10 is ten ASCII digits.
pub proof fn lemma_pad10(n: nat)
    requires
        n < 10000000000,
    ensures
        pad10(n).len() == 10,
        utf8_len(pad10(n)) == 10,
{
    lemma_decimal(n, 10);
    assert(pow10(10) == 10000000000) by {
        reveal_with_fuel(pow10, 11);
    }
    let d = decimal(n);
    let p = pad10(n);
    assert forall|i: int| 0 <= i < p.len() implies (#[trigger] p[i]) as u32 <= 0x7F by {
        if d.len() < 10 {
            let z = Seq::new((10 - d.len()) as nat, |j: int| '0');
            if i < z.len() {
                assert(p[i] == '0');
            } else {
                assert(p[i] == d[i - z.len()]);
            }
        }
    }
    lemma_ascii_utf8_len(p);
}

proof fn lemma_lit_ascii(s: Seq<char>, n: nat)
    requires
        s.len() == n,
        forall|i: int| 0 <= i < s.len() ==> (#[trigger] s[i]) as u32 <= 0x7F,
    ensures
        utf8_len(s) == n,
{
    lemma_ascii_utf8_len(s);
}

/// The offsets in a `CF_HTML` header are exact byte offsets: the payload
/// is EndHTML bytes long, the document starts at StartHTML, and the bytes
/// from StartFragment to EndFragment are exactly the fragment's UTF-8
/// encoding. (It holds while EndHTML fits in the ten digits of the header.)
pub proof fn law_cf_html_offsets(fragment: Seq<char>)
    requires
        cf_end_html(fragment) < 10000000000,
    ensures
        encode_utf8(cf_html(fragment)).len() == cf_end_html(fragment),
        encode_utf8(cf_html(fragment)).subrange(
            cf_start_fragment() as int,
            cf_end_fragment(fragment) as int,
        ) == encode_utf8(fragment),
        encode_utf8(cf_html(fragment)).subrange(
            cf_start_html() as int,
            cf_start_fragment() as int,
        ) == encode_utf8(cf_pre()),
        cf_start_html() <= cf_start_fragment() <= cf_end_fragment(fragment) <= cf_end_html(
            fragment,
        ),
{
    let l1 = "Version:0.9\r\nStartHTML:"@;
    let l2 = "\r\nEndHTML:"@;
    let l3 = "\r\nStartFragment:"@;
    let l4 = "\r\nEndFragment:"@;
    let l5 = "\r\n"@;
    reveal_strlit("Version:0.9\r\nStartHTML:");
    reveal_strlit("\r\nEndHTML:");
    reveal_strlit("\r\nStartFragment:");
    reveal_strlit("\r\nEndFragment:");
    reveal_strlit("\r\n");
    reveal_strlit("<html>\r\n<head><meta charset=\"utf-8\"></head>\r\n<body>\r\n<!--StartFragment-->");
    reveal_strlit("<!--EndFragment-->\r\n</body>\r\n</html>");
    lemma_lit_ascii(l1, 23);
    lemma_lit_ascii(l2, 10);
    lemma_lit_ascii(l3, 16);
    lemma_lit_ascii(l4, 14);
    lemma_lit_ascii(l5, 2);
    lemma_lit_ascii(cf_pre(), 73);
    lemma_lit_ascii(cf_post(), 36);
    let sh = cf_start_html();
    let eh = cf_end_html(fragment);
    let sf = cf_start_fragment();
    let ef = cf_end_fragment(fragment);
    lemma_pad10(sh);
    lemma_pad10(eh);
    lemma_pad10(sf);
    lemma_pad10(ef);
    let h1 = l1 + pad10(sh);
    let h2 = h1 + l2;
    let h3 = h2 + pad10(eh);
    let h4 = h3 + l3;
    let h5 = h4 + pad10(sf);
    let h6 = h5 + l4;
    let h7 = h6 + pad10(ef);
    let h8 = h7 + l5;
    let h9 = h8 + cf_pre();
    let h10 = h9 + fragment;
    let all = h10 + cf_post();
    assert(all == cf_html(fragment));
    lemma_utf8_len_concat(l1, pad10(sh));
    lemma_utf8_len_concat(h1, l2);
    lemma_utf8_len_concat(h2, pad10(eh));
    lemma_utf8_len_concat(h3, l3);
    lemma_utf8_len_concat(h4, pad10(sf));
    lemma_utf8_len_concat(h5, l4);
    lemma_utf8_len_concat(h6, pad10(ef));
    lemma_utf8_len_concat(h7, l5);
    lemma_utf8_len_concat(h8, cf_pre());
    assert(utf8_len(h8) == 105);
    assert(utf8_len(h9) == 178);
    crate::text::lemma_utf8_len_encode(h8);
    crate::text::lemma_utf8_len_encode(h9);
    crate::text::lemma_utf8_len_encode(fragment);
    crate::text::lemma_utf8_len_encode(cf_post());
    crate::text::lemma_utf8_len_encode(cf_pre());
    lemma_encode_concat(h8, cf_pre());
    lemma_encode_concat(h9, fragment);
    lemma_encode_concat(h10, cf_post());
    let e8 = encode_utf8(h8);
    let ep = encode_utf8(cf_pre());
    let ef8 = encode_utf8(fragment);
    let eo = encode_utf8(cf_post());
    assert(encode_utf8(all) == e8 + ep + ef8 + eo);
    assert((e8 + ep + ef8 + eo).subrange(178, 178 + ef8.len() as int) =~= ef8);
    assert((e8 + ep + ef8 + eo).subrange(105, 178) =~= ep);
}


/// The PowerShell command before the (quoted) Windows path of the payload file.
pub open spec fn ps_head() -> Seq<char> {
    "Add-Type -AssemblyName System.Windows.Forms; $bytes = [System.IO.File]::ReadAllBytes('"@
}

/// The PowerShell command after the Windows path: wraps the raw UTF-8
/// bytes as HTML data and sets the clipboard.
pub open spec fn ps_tail() -> Seq<char> {
    "'); $ms = New-Object System.IO.MemoryStream(,$bytes); $d = New-Object System.Windows.Forms.DataObject; $d.SetData([System.Windows.Forms.DataFormats]::Html, $ms); [System.Windows.Forms.Clipboard]::SetDataObject($d, $true)"@
}

/// The PowerShell script that puts the `CF_HTML` file at `win_path` on the
/// Windows clipboard; single quotes in the path are doubled (PowerShell
/// single-quoted string escaping).
pub fn powershell_clipboard_script(win_path: &str) -> (r: String)
    ensures
        r@ == ps_head() + replace_all(win_path@, "'"@, "''"@) + ps_tail(),
{
    let p = chars_of(win_path);
    let q = chars_of("'");
    let qq = chars_of("''");
    proof {
        reveal_strlit("'");
    }
    let escaped = replace_all_chars(p.as_slice(), q.as_slice(), qq.as_slice());
    let mut v: Vec<char> = Vec::new();
    push_str(&mut v, "Add-Type -AssemblyName System.Windows.Forms; $bytes = [System.IO.File]::ReadAllBytes('");
    push_all(&mut v, escaped.as_slice());
    push_str(&mut v, "'); $ms = New-Object System.IO.MemoryStream(,$bytes); $d = New-Object System.Windows.Forms.DataObject; $d.SetData([System.Windows.Forms.DataFormats]::Html, $ms); [System.Windows.Forms.Clipboard]::SetDataObject($d, $true)");
    string_of(v.as_slice())
}

/// The error message for a clipboard tool `cmd` that exited unsuccessfully
/// with the given standard error output.
pub open spec fn pipe_failure(cmd: Seq<char>, stderr: Seq<char>) -> Seq<char> {
    if trim(stderr).len() == 0 {
        cmd + " 返回非零退出码"@
    } else {
        cmd + " 失败: "@ + trim(stderr)
    }
}

/// Message for a failed clipboard tool: its trimmed standard error, or a
/// note about the non-zero exit code when that is empty.
pub fn pipe_failure_message(cmd: &str, stderr: &str) -> (r: String)
    ensures
        r@ == pipe_failure(cmd@, stderr@),
{
    let e = trim_chars(chars_of(stderr).as_slice());
    let mut v = chars_of(cmd);
    if e.len() == 0 {
        push_str(&mut v, " 返回非零退出码");
    } else {
        push_str(&mut v, " 失败: ");
        push_all(&mut v, e.as_slice());
    }
    string_of(v.as_slice())
}


// ── Choosing a clipboard tool ────────────────────────────────────────

/// The clipboard tools, tried in this order.
#[derive(Debug, Clone, Copy, PartialEq, Eq, Structural)]
pub enum ClipboardTool {
    /// WSL2 / Windows: `CF_HTML` through PowerShell.
    PowerShell,
    /// X11: `xclip -selection clipboard -t text/html`.
    Xclip,
    /// Wayland: `wl-copy --type text/html`.
    WlCopy,
}

/// The tool tried after `t`, if any.
pub open spec fn tool_after(t: ClipboardTool) -> Option<ClipboardTool> {
    match t {
        ClipboardTool::PowerShell => Some(ClipboardTool::Xclip),
        ClipboardTool::Xclip => Some(ClipboardTool::WlCopy),
        ClipboardTool::WlCopy => None,
    }
}

/// The tool tried first.
pub fn first_clipboard_tool() -> (t: ClipboardTool)
    ensures
        t == ClipboardTool::PowerShell,
{
    ClipboardTool::PowerShell
}

/// The tool tried after `t` failed; `None` after the last one.
pub fn next_clipboard_tool(t: ClipboardTool) -> (r: Option<ClipboardTool>)
    ensures
        r == tool_after(t),
{
    match t {
        ClipboardTool::PowerShell => Some(ClipboardTool::Xclip),
        ClipboardTool::Xclip => Some(ClipboardTool::WlCopy),
        ClipboardTool::WlCopy => None,
    }
}

/// What a successful tool reports, by name.
pub open spec fn tool_label(t: ClipboardTool) -> Seq<char> {
    match t {
        ClipboardTool::PowerShell => "CF_HTML (PowerShell)"@,
        ClipboardTool::Xclip => "xclip (text/html)"@,
        ClipboardTool::WlCopy => "wl-copy (text/html)"@,
    }
}

/// The name of a tool used in its failure warning.
pub open spec fn tool_warning_name(t: ClipboardTool) -> Seq<char> {
    match t {
        ClipboardTool::PowerShell => "PowerShell 剪贴板"@,
        ClipboardTool::Xclip => "xclip"@,
        ClipboardTool::WlCopy => "wl-copy"@,
    }
}

/// The report of a tool that worked.
pub fn clipboard_tool_label(t: ClipboardTool) -> (r: String)
    ensures
        r@ == tool_label(t),
{
    match t {
        ClipboardTool::PowerShell => "CF_HTML (PowerShell)".to_owned(),
        ClipboardTool::Xclip => "xclip (text/html)".to_owned(),
        ClipboardTool::WlCopy => "wl-copy (text/html)".to_owned(),
    }
}

/// The warning printed when tool `t` failed with `error`.
pub fn clipboard_tool_warning(t: ClipboardTool, error: &str) -> (r: String)
    ensures
        r@ == "[warn] "@ + tool_warning_name(t) + " 失败: "@ + error@,
{
    let mut v = chars_of("[warn] ");
    match t {
        ClipboardTool::PowerShell => push_str(&mut v, "PowerShell 剪贴板"),
        ClipboardTool::Xclip => push_str(&mut v, "xclip"),
        ClipboardTool::WlCopy => push_str(&mut v, "wl-copy"),
    }
    push_str(&mut v, " 失败: ");
    push_str(&mut v, error);
    string_of(v.as_slice())
}

/// The command and arguments of a piping tool (PowerShell is run
/// differently and has none).
pub open spec fn pipe_command(t: ClipboardTool) -> Option<(Seq<char>, Seq<Seq<char>>)> {
    match t {
        ClipboardTool::PowerShell => None,
        ClipboardTool::Xclip => Some(
            ("xclip"@, seq!["-selection"@, "clipboard"@, "-t"@, "text/html"@]),
        ),
        ClipboardTool::WlCopy => Some(("wl-copy"@, seq!["--type"@, "text/html"@])),
    }
}

/// The views of a vector of strings.
pub open spec fn arg_views(v: Seq<String>) -> Seq<Seq<char>> {
    v.map_values(|s: String| s@)
}

/// The command line of a tool that reads the HTML on its standard input.
pub fn clipboard_pipe_command(t: ClipboardTool) -> (r: Option<(String, Vec<String>)>)
    ensures
        match r {
            Some((c, a)) => pipe_command(t) == Some((c@, arg_views(a@))),
            None => pipe_command(t) is None,
        },
{
    match t {
        ClipboardTool::PowerShell => None,
        ClipboardTool::Xclip => {
            let mut a: Vec<String> = Vec::new();
            a.push("-selection".to_owned());
            a.push("clipboard".to_owned());
            a.push("-t".to_owned());
            a.push("text/html".to_owned());
            assert(arg_views(a@) =~= seq!["-selection"@, "clipboard"@, "-t"@, "text/html"@]);
            Some(("xclip".to_owned(), a))
        },
        ClipboardTool::WlCopy => {
            let mut a: Vec<String> = Vec::new();
            a.push("--type".to_owned());
            a.push("text/html".to_owned());
            assert(arg_views(a@) =~= seq!["--type"@, "text/html"@]);
            Some(("wl-copy".to_owned(), a))
        },
    }
}

/// The error when no clipboard tool worked.
pub fn no_clipboard_tool_message() -> (r: String)
    ensures
        r@ == "未找到可用的剪贴板工具 (powershell.exe / xclip / wl-copy)"@,
{
    "未找到可用的剪贴板工具 (powershell.exe / xclip / wl-copy)".to_owned()
}

/// Every tool is tried at most once, in a fixed order, and the order ends.
pub proof fn law_clipboard_order()
    ensures
        tool_after(ClipboardTool::PowerShell) == Some(ClipboardTool::Xclip),
        tool_after(ClipboardTool::Xclip) == Some(ClipboardTool::WlCopy),
        tool_after(ClipboardTool::WlCopy) is None,
{
}

} // verus!
