use cognitive_writer::clipboard::{
    build_cf_html, clipboard_pipe_command, clipboard_tool_label, clipboard_tool_warning,
    first_clipboard_tool, next_clipboard_tool, no_clipboard_tool_message, pipe_failure_message,
    powershell_clipboard_script, ClipboardTool,
};

/// The value of `key:` in a CF_HTML header.
fn header_value(header: &str, key: &str) -> usize {
    let prefix = format!("{}:", key);
    for line in header.lines() {
        if let Some(val) = line.strip_prefix(&prefix) {
            return val.trim().parse().unwrap();
        }
    }
    panic!("key {} not found in CF_HTML header", key);
}

/// The four offsets of a CF_HTML header.
fn parse_cf_html_offsets(header: &str) -> (usize, usize, usize, usize) {
    (
        header_value(header, "StartHTML"),
        header_value(header, "EndHTML"),
        header_value(header, "StartFragment"),
        header_value(header, "EndFragment"),
    )
}

#[test]
fn test_build_cf_html_has_version_header() {
    let result = build_cf_html("<p>test</p>");
    assert!(
        result.starts_with("Version:0.9"),
        "CF_HTML must start with Version:0.9 header"
    );
}

#[test]
fn test_build_cf_html_offsets_correct() {
    let fragment = "<p>Hello</p>";
    let result = build_cf_html(fragment);

    let html_start = result.find("<html>").expect("<html> not found");

    let (start_html, end_html, start_frag, end_frag) =
        parse_cf_html_offsets(&result[..html_start]);

    assert!(start_html > 0, "StartHTML must be > 0");
    assert!(end_html > 0, "EndHTML must be > 0");
    assert!(start_frag > 0, "StartFragment must be > 0");
    assert!(end_frag > 0, "EndFragment must be > 0");
    assert!(start_html <= start_frag);
    assert!(start_frag <= end_frag);
    assert!(end_frag <= end_html);

    assert_eq!(end_frag - start_frag, fragment.len());
    assert_eq!(result.len(), end_html);
    assert_eq!(&result[start_frag..end_frag], fragment);
}

#[test]
fn test_build_cf_html_empty_fragment() {
    let result = build_cf_html("");
    assert!(result.contains("<!--StartFragment-->"));
    assert!(result.contains("<!--EndFragment-->"));

    let html_start = result.find("<html>").unwrap();
    let (_, _, start_frag, end_frag) = parse_cf_html_offsets(&result[..html_start]);

    assert_eq!(start_frag, end_frag);
}

#[test]
fn test_build_cf_html_chinese_byte_offsets() {
    let fragment = "你好世界";
    let result = build_cf_html(fragment);

    let html_start = result.find("<html>").unwrap();
    let (_, _, start_frag, end_frag) = parse_cf_html_offsets(&result[..html_start]);

    assert_eq!(end_frag - start_frag, 12, "Chinese fragment must be 12 bytes");
    assert_eq!(&result[start_frag..end_frag], fragment);
}

#[test]
fn test_build_cf_html_with_nested_html_tags() {
    let fragment = "<div><p>text</p></div>";
    let result = build_cf_html(fragment);

    let html_start = result.find("<html>").unwrap();
    let (_, _, start_frag, end_frag) = parse_cf_html_offsets(&result[..html_start]);

    assert_eq!(&result[start_frag..end_frag], fragment);
}

#[test]
fn cf_html_exact_header_for_short_fragment() {
    let result = build_cf_html("<p>x</p>");
    assert_eq!(
        result,
        "Version:0.9\r\nStartHTML:0000000105\r\nEndHTML:0000000222\r\nStartFragment:0000000178\r\nEndFragment:0000000186\r\n<html>\r\n<head><meta charset=\"utf-8\"></head>\r\n<body>\r\n<!--StartFragment--><p>x</p><!--EndFragment-->\r\n</body>\r\n</html>"
    );
}

#[test]
fn powershell_script_doubles_single_quotes() {
    let script = powershell_clipboard_script("C:\\it's\\a.html");
    assert!(script.contains("ReadAllBytes('C:\\it''s\\a.html')"));
    assert!(script.starts_with("Add-Type -AssemblyName System.Windows.Forms; "));
    assert!(script.ends_with("SetDataObject($d, $true)"));
}

#[test]
fn pipe_failure_reports_stderr_or_exit_code() {
    assert_eq!(pipe_failure_message("xclip", "  oops \n"), "xclip 失败: oops");
    assert_eq!(pipe_failure_message("wl-copy", "   "), "wl-copy 返回非零退出码");
}

#[test]
fn clipboard_tools_are_tried_in_order() {
    let t = first_clipboard_tool();
    assert_eq!(t, ClipboardTool::PowerShell);
    assert_eq!(next_clipboard_tool(t), Some(ClipboardTool::Xclip));
    assert_eq!(next_clipboard_tool(ClipboardTool::Xclip), Some(ClipboardTool::WlCopy));
    assert_eq!(next_clipboard_tool(ClipboardTool::WlCopy), None);
    assert_eq!(clipboard_tool_label(ClipboardTool::PowerShell), "CF_HTML (PowerShell)");
    assert_eq!(clipboard_tool_label(ClipboardTool::Xclip), "xclip (text/html)");
    assert_eq!(clipboard_tool_label(ClipboardTool::WlCopy), "wl-copy (text/html)");
    assert_eq!(
        clipboard_tool_warning(ClipboardTool::Xclip, "无法启动 xclip"),
        "[warn] xclip 失败: 无法启动 xclip"
    );
    assert_eq!(
        no_clipboard_tool_message(),
        "未找到可用的剪贴板工具 (powershell.exe / xclip / wl-copy)"
    );
}

#[test]
fn clipboard_pipe_commands() {
    assert!(clipboard_pipe_command(ClipboardTool::PowerShell).is_none());
    let (cmd, args) = clipboard_pipe_command(ClipboardTool::Xclip).unwrap();
    assert_eq!(cmd, "xclip");
    assert_eq!(args, vec!["-selection", "clipboard", "-t", "text/html"]);
    let (cmd, args) = clipboard_pipe_command(ClipboardTool::WlCopy).unwrap();
    assert_eq!(cmd, "wl-copy");
    assert_eq!(args, vec!["--type", "text/html"]);
}
