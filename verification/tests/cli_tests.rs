use cognitive_writer::cli::{
    check_idea, check_update, extract_arg, parse_cli, unknown_cli_message, CliCommand,
};

fn args(list: &[&str]) -> Vec<String> {
    list.iter().map(|s| s.to_string()).collect()
}

#[test]
fn flag_values() {
    let a = args(&["x", "-i", "in.md", "--input", "other.md"]);
    assert_eq!(extract_arg(&a, "-i", "--input"), Some("in.md".to_string()));
    assert_eq!(extract_arg(&args(&["--input"]), "-i", "--input"), None);
    assert_eq!(extract_arg(&args(&["a"]), "-i", "--input"), None);
}

#[test]
fn generate_defaults() {
    match parse_cli(&args(&["generate"])) {
        CliCommand::Generate { input, no_clipboard } => {
            assert_eq!(input, "inputs/idea_01.md");
            assert!(!no_clipboard);
        }
        _ => panic!("expected generate"),
    }
    match parse_cli(&args(&["generate", "--no-clipboard", "--input", "x.md"])) {
        CliCommand::Generate { input, no_clipboard } => {
            assert_eq!(input, "x.md");
            assert!(no_clipboard);
        }
        _ => panic!("expected generate"),
    }
}

#[test]
fn learn_refine_update() {
    match parse_cli(&args(&["learn", "https://a.b"])) {
        CliCommand::Learn { url } => assert_eq!(url, "https://a.b"),
        _ => panic!("expected learn"),
    }
    match parse_cli(&args(&["learn"])) {
        CliCommand::Usage(u) => assert_eq!(u, "用法: cog learn <URL>"),
        _ => panic!("expected usage"),
    }
    match parse_cli(&args(&["refine", "--no-clipboard", "a.txt", "b.md"])) {
        CliCommand::Refine { file, no_clipboard } => {
            assert_eq!(file, "b.md");
            assert!(no_clipboard);
        }
        _ => panic!("expected refine"),
    }
    match parse_cli(&args(&["update", "a.md", "-i", "更正式"])) {
        CliCommand::Update { file, instruction, no_clipboard } => {
            assert_eq!(file, "a.md");
            assert_eq!(instruction, Some("更正式".to_string()));
            assert!(!no_clipboard);
        }
        _ => panic!("expected update"),
    }
    match parse_cli(&args(&["update"])) {
        CliCommand::Usage(u) => {
            assert_eq!(u, "用法: cog update <file.md> [-i <指令>] [--no-clipboard]")
        }
        _ => panic!("expected usage"),
    }
}

#[test]
fn unknown_commands() {
    match parse_cli(&args(&["publish"])) {
        CliCommand::Unknown(c) => assert_eq!(unknown_cli_message(&c), "未知命令: publish"),
        _ => panic!("expected unknown"),
    }
    match parse_cli(&args(&[])) {
        CliCommand::Unknown(c) => assert_eq!(c, ""),
        _ => panic!("expected unknown"),
    }
}

#[test]
fn inputs_are_checked() {
    assert_eq!(
        check_idea("inputs/idea_01.md", " \n"),
        Err("inputs/idea_01.md 内容为空，请先写入创作素材".to_string())
    );
    assert_eq!(check_idea("a", "x"), Ok(()));
    assert_eq!(check_update(" ", "x"), Err("目标文件内容为空，无法重写".to_string()));
    assert_eq!(check_update("文", "  "), Err("修改指令不能为空".to_string()));
    assert_eq!(check_update("文", " 改短 "), Ok("改短".to_string()));
}
