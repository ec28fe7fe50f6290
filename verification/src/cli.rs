//! The command line: `cog generate|learn|refine|update ...`.

use vstd::prelude::*;
use crate::text::{
    chars_eq, chars_of, ends_with, ends_with_chars, is_blank, push_str, string_of, trim,
    trim_chars,
};

verus! {

broadcast use vstd::string::group_string_axioms;

/// The views of a sequence of strings.
pub open spec fn arg_views(args: Seq<String>) -> Seq<Seq<char>> {
    args.map_values(|a: String| a@)
}

/// The first index at or after `i` of `short` or `long` in `args`.
pub open spec fn flag_index_from(args: Seq<Seq<char>>, short: Seq<char>, long: Seq<char>, i: int) -> Option<int>
    decreases args.len() - i,
{
    if i < 0 || i >= args.len() {
        None
    } else if args[i] == short || args[i] == long {
        Some(i)
    } else {
        flag_index_from(args, short, long, i + 1)
    }
}

/// The value of a flag: the argument after its first occurrence (as
/// `short` or `long`), if there is one.
pub open spec fn flag_value(args: Seq<Seq<char>>, short: Seq<char>, long: Seq<char>) -> Option<Seq<char>> {
    match flag_index_from(args, short, long, 0) {
        Some(i) => if i + 1 < args.len() {
            Some(args[i + 1])
        } else {
            None
        },
        None => None,
    }
}

/// The argument after the first `short` or `long` flag.
pub fn extract_arg(args: &Vec<String>, short: &str, long: &str) -> (r: Option<String>)
    ensures
        match r {
            Some(v) => flag_value(arg_views(args@), short@, long@) == Some(v@),
            None => flag_value(arg_views(args@), short@, long@) is None,
        },
{
    let ghost a = arg_views(args@);
    let s = chars_of(short);
    let l = chars_of(long);
    let mut i: usize = 0;
    while i < args.len()
        invariant
            i <= args@.len(),
            a == arg_views(args@),
            s@ == short@,
            l@ == long@,
            flag_index_from(a, short@, long@, 0) == flag_index_from(a, short@, long@, i as int),
        decreases args.len() - i,
    {
        let arg = chars_of(args[i].as_str());
        if chars_eq(arg.as_slice(), s.as_slice()) || chars_eq(arg.as_slice(), l.as_slice()) {
            if i + 1 < args.len() {
                return Some(args[i + 1].clone());
            } else {
                return None;
            }
        }
        i += 1;
    }
    None
}

/// Whether `x` is one of `args`.
pub open spec fn has_arg(args: Seq<Seq<char>>, x: Seq<char>) -> bool {
    exists|i: int| 0 <= i < args.len() && args[i] == x
}

/// Whether the arguments hold `x`.
fn contains_arg(args: &Vec<String>, x: &str) -> (r: bool)
    ensures
        r == has_arg(arg_views(args@), x@),
{
    let xs = chars_of(x);
    let mut i: usize = 0;
    while i < args.len()
        invariant
            i <= args@.len(),
            xs@ == x@,
            forall|j: int| 0 <= j < i ==> args@[j]@ != x@,
        decreases args.len() - i,
    {
        if chars_eq(chars_of(args[i].as_str()).as_slice(), xs.as_slice()) {
            assert(arg_views(args@)[i as int] == x@);
            return true;
        }
        i += 1;
    }
    proof {
        if has_arg(arg_views(args@), x@) {
            let j = choose|j: int| 0 <= j < args@.len() && arg_views(args@)[j] == x@;
            assert(args@[j]@ == x@);
        }
    }
    false
}

/// The first argument ending in `.md`.
pub open spec fn first_md_arg(args: Seq<Seq<char>>) -> Option<Seq<char>>
    decreases args.len(),
{
    if args.len() == 0 {
        None
    } else if ends_with(args[0], ".md"@) {
        Some(args[0])
    } else {
        first_md_arg(args.drop_first())
    }
}

fn find_md_arg(args: &Vec<String>) -> (r: Option<String>)
    ensures
        match r {
            Some(v) => first_md_arg(arg_views(args@)) == Some(v@),
            None => first_md_arg(arg_views(args@)) is None,
        },
{
    let md = chars_of(".md");
    let mut i: usize = 0;
    assert(arg_views(args@).skip(0) =~= arg_views(args@));
    while i < args.len()
        invariant
            i <= args@.len(),
            md@ == ".md"@,
            first_md_arg(arg_views(args@)) == first_md_arg(arg_views(args@).skip(i as int)),
        decreases args.len() - i,
    {
        assert(arg_views(args@).skip(i as int)[0] == args@[i as int]@);
        if ends_with_chars(chars_of(args[i].as_str()).as_slice(), md.as_slice()) {
            return Some(args[i].clone());
        }
        assert(arg_views(args@).skip(i as int).drop_first() =~= arg_views(args@).skip(i + 1));
        i += 1;
    }
    assert(arg_views(args@).skip(i as int) =~= Seq::<Seq<char>>::empty());
    None
}

/// A command-line invocation.
pub enum CliCommand {
    /// `generate [-i|--input <file>] [--no-clipboard]`.
    Generate { input: String, no_clipboard: bool },
    /// `learn <url>`.
    Learn { url: String },
    /// `refine <file.md> [--no-clipboard]`.
    Refine { file: String, no_clipboard: bool },
    /// `update <file.md> [-i|--instruction <text>] [--no-clipboard]`.
    Update { file: String, instruction: Option<String>, no_clipboard: bool },
    /// A known command used wrongly: print the usage line and exit with 1.
    Usage(String),
    /// An unknown command (empty where there is none): exit with 1.
    Unknown(String),
}

/// The mathematical value of a [`CliCommand`].
pub enum CliModel {
    Generate { input: Seq<char>, no_clipboard: bool },
    Learn { url: Seq<char> },
    Refine { file: Seq<char>, no_clipboard: bool },
    Update { file: Seq<char>, instruction: Option<Seq<char>>, no_clipboard: bool },
    Usage(Seq<char>),
    Unknown(Seq<char>),
}

impl View for CliCommand {
    type V = CliModel;

    open spec fn view(&self) -> CliModel {
        match self {
            CliCommand::Generate { input, no_clipboard } => CliModel::Generate {
                input: input@,
                no_clipboard: *no_clipboard,
            },
            CliCommand::Learn { url } => CliModel::Learn { url: url@ },
            CliCommand::Refine { file, no_clipboard } => CliModel::Refine {
                file: file@,
                no_clipboard: *no_clipboard,
            },
            CliCommand::Update { file, instruction, no_clipboard } => CliModel::Update {
                file: file@,
                instruction: match instruction {
                    Some(i) => Some(i@),
                    None => None,
                },
                no_clipboard: *no_clipboard,
            },
            CliCommand::Usage(u) => CliModel::Usage(u@),
            CliCommand::Unknown(c) => CliModel::Unknown(c@),
        }
    }
}

/// The input file used when `generate` names none.
pub const DEFAULT_INPUT: &'static str = "inputs/idea_01.md";

/// The invocation written by the arguments after the program name: the
/// subcommand, then its arguments.
pub open spec fn cli_command(args: Seq<Seq<char>>) -> CliModel {
    let rest = args.skip(1);
    let no_clipboard = has_arg(rest, "--no-clipboard"@);
    if args.len() == 0 {
        CliModel::Unknown(Seq::empty())
    } else if args[0] == "generate"@ {
        CliModel::Generate {
            input: match flag_value(rest, "-i"@, "--input"@) {
                Some(v) => v,
                None => DEFAULT_INPUT@,
            },
            no_clipboard,
        }
    } else if args[0] == "learn"@ {
        if rest.len() > 0 {
            CliModel::Learn { url: rest[0] }
        } else {
            CliModel::Usage("用法: cog learn <URL>"@)
        }
    } else if args[0] == "refine"@ {
        match first_md_arg(rest) {
            Some(f) => CliModel::Refine { file: f, no_clipboard },
            None => CliModel::Usage("用法: cog refine <file.md> [--no-clipboard]"@),
        }
    } else if args[0] == "update"@ {
        match first_md_arg(rest) {
            Some(f) => CliModel::Update {
                file: f,
                instruction: flag_value(rest, "-i"@, "--instruction"@),
                no_clipboard,
            },
            None => CliModel::Usage("用法: cog update <file.md> [-i <指令>] [--no-clipboard]"@),
        }
    } else {
        CliModel::Unknown(args[0])
    }
}

/// Parses the arguments after the program name.
pub fn parse_cli(args: &Vec<String>) -> (r: CliCommand)
    ensures
        r@ == cli_command(arg_views(args@)),
{
    if args.len() == 0 {
        proof {
            reveal_strlit("");
        }
        assert(arg_views(args@).len() == 0);
        let e = "".to_owned();
        assert(e@ == Seq::<char>::empty());
        return CliCommand::Unknown(e);
    }
    let mut rest: Vec<String> = Vec::new();
    let mut i: usize = 1;
    while i < args.len()
        invariant
            1 <= i <= args@.len(),
            arg_views(rest@) == arg_views(args@).subrange(1, i as int),
        decreases args.len() - i,
    {
        let a = args[i].clone();
        assert(a@ == args@[i as int]@);
        let ghost before = rest@;
        rest.push(a);
        assert(rest@ == before.push(a));
        assert(arg_views(before.push(a)) =~= arg_views(before).push(a@));
        assert(arg_views(args@).subrange(1, i + 1) =~= arg_views(args@).subrange(1, i as int).push(
            arg_views(args@)[i as int],
        ));
        assert(arg_views(rest@) =~= arg_views(args@).subrange(1, i + 1));
        i += 1;
    }
    assert(arg_views(rest@) =~= arg_views(args@).skip(1));
    let cmd = chars_of(args[0].as_str());
    let no_clipboard = contains_arg(&rest, "--no-clipboard");
    if chars_eq(cmd.as_slice(), chars_of("generate").as_slice()) {
        let input = match extract_arg(&rest, "-i", "--input") {
            Some(v) => v,
            None => DEFAULT_INPUT.to_owned(),
        };
        CliCommand::Generate { input, no_clipboard }
    } else if chars_eq(cmd.as_slice(), chars_of("learn").as_slice()) {
        if rest.len() > 0 {
            CliCommand::Learn { url: rest[0].clone() }
        } else {
            CliCommand::Usage("用法: cog learn <URL>".to_owned())
        }
    } else if chars_eq(cmd.as_slice(), chars_of("refine").as_slice()) {
        match find_md_arg(&rest) {
            Some(f) => CliCommand::Refine { file: f, no_clipboard },
            None => CliCommand::Usage("用法: cog refine <file.md> [--no-clipboard]".to_owned()),
        }
    } else if chars_eq(cmd.as_slice(), chars_of("update").as_slice()) {
        match find_md_arg(&rest) {
            Some(f) => CliCommand::Update {
                file: f,
                instruction: extract_arg(&rest, "-i", "--instruction"),
                no_clipboard,
            },
            None => CliCommand::Usage(
                "用法: cog update <file.md> [-i <指令>] [--no-clipboard]".to_owned(),
            ),
        }
    } else {
        CliCommand::Unknown(args[0].clone())
    }
}

/// The message for an unknown command.
pub fn unknown_cli_message(command: &str) -> (r: String)
    ensures
        r@ == "未知命令: "@ + command@,
{
    let mut v = chars_of("未知命令: ");
    push_str(&mut v, command);
    string_of(v.as_slice())
}

/// The usage line printed after an unknown command.
pub const CLI_USAGE: &'static str = "用法: cog [generate|learn|refine|update] [...]";


/// Checks the idea file of `generate`: refused when blank.
pub fn check_idea(input_path: &str, idea: &str) -> (r: Result<(), String>)
    ensures
        trim(idea@).len() == 0 ==> (r matches Err(m) && m@ == input_path@
            + " 内容为空，请先写入创作素材"@),
        trim(idea@).len() > 0 ==> r is Ok,
{
    if is_blank(chars_of(idea).as_slice()) {
        let mut v = chars_of(input_path);
        push_str(&mut v, " 内容为空，请先写入创作素材");
        Err(string_of(v.as_slice()))
    } else {
        Ok(())
    }
}

/// Checks the article of `update`: refused when blank.
pub fn check_article(content: &str) -> (r: Result<(), String>)
    ensures
        trim(content@).len() == 0 ==> (r matches Err(m) && m@ == "目标文件内容为空，无法重写"@),
        trim(content@).len() > 0 ==> r is Ok,
{
    if is_blank(chars_of(content).as_slice()) {
        Err("目标文件内容为空，无法重写".to_owned())
    } else {
        Ok(())
    }
}

/// Checks the inputs of `update`: the article must not be blank, nor the
/// instruction, which is returned trimmed.
pub fn check_update(content: &str, instruction: &str) -> (r: Result<String, String>)
    ensures
        trim(content@).len() == 0 ==> (r matches Err(m) && m@ == "目标文件内容为空，无法重写"@),
        trim(content@).len() > 0 && trim(instruction@).len() == 0 ==> (r matches Err(m) && m@
            == "修改指令不能为空"@),
        trim(content@).len() > 0 && trim(instruction@).len() > 0 ==> (r matches Ok(i) && i@
            == trim(instruction@)),
{
    if is_blank(chars_of(content).as_slice()) {
        return Err("目标文件内容为空，无法重写".to_owned());
    }
    let t = trim_chars(chars_of(instruction).as_slice());
    if t.len() == 0 {
        return Err("修改指令不能为空".to_owned());
    }
    Ok(string_of(t.as_slice()))
}

proof fn lemma_flag_index_at(args: Seq<Seq<char>>, short: Seq<char>, long: Seq<char>, i: int, k: int)
    requires
        0 <= i <= k < args.len(),
        args[k] == short || args[k] == long,
        forall|j: int| i <= j < k ==> #[trigger] args[j] != short && args[j] != long,
    ensures
        flag_index_from(args, short, long, i) == Some(k),
    decreases k - i,
{
    if i < k {
        lemma_flag_index_at(args, short, long, i + 1, k);
    }
}

proof fn lemma_no_flag(args: Seq<Seq<char>>, short: Seq<char>, long: Seq<char>, i: int)
    requires
        0 <= i <= args.len(),
        forall|j: int| i <= j < args.len() ==> #[trigger] args[j] != short && args[j] != long,
    ensures
        flag_index_from(args, short, long, i) is None,
    decreases args.len() - i,
{
    if i < args.len() {
        lemma_no_flag(args, short, long, i + 1);
    }
}

proof fn lemma_first_md_arg_at(args: Seq<Seq<char>>, k: int)
    requires
        0 <= k < args.len(),
        ends_with(args[k], ".md"@),
        forall|j: int| 0 <= j < k ==> !ends_with(#[trigger] args[j], ".md"@),
    ensures
        first_md_arg(args) == Some(args[k]),
    decreases k,
{
    if k > 0 {
        let rest = args.drop_first();
        assert(!ends_with(args[0], ".md"@));
        assert forall|j: int| 0 <= j < k - 1 implies !ends_with(#[trigger] rest[j], ".md"@) by {
            assert(rest[j] == args[j + 1]);
        }
        assert(rest[k - 1] == args[k]);
        lemma_first_md_arg_at(rest, k - 1);
    }
}

proof fn lemma_no_md_arg(args: Seq<Seq<char>>)
    requires
        forall|j: int| 0 <= j < args.len() ==> !ends_with(#[trigger] args[j], ".md"@),
    ensures
        first_md_arg(args) is None,
    decreases args.len(),
{
    if args.len() > 0 {
        let rest = args.drop_first();
        assert(!ends_with(args[0], ".md"@));
        assert forall|j: int| 0 <= j < rest.len() implies !ends_with(#[trigger] rest[j], ".md"@) by {
            assert(rest[j] == args[j + 1]);
        }
        lemma_no_md_arg(rest);
    }
}

/// A flag's value is the argument right after its earliest occurrence
/// (short or long form), none when that occurrence is the last argument or
/// the flag is absent; the file of `refine` and `update` is the earliest
/// argument ending in `.md`.
pub proof fn law_first_flag_and_file(args: Seq<Seq<char>>, short: Seq<char>, long: Seq<char>)
    ensures
        forall|k: int|
            #![trigger args[k]]
            0 <= k < args.len() && (args[k] == short || args[k] == long) && (forall|j: int|
                0 <= j < k ==> #[trigger] args[j] != short && args[j] != long) ==> flag_value(
                args,
                short,
                long,
            ) == if k + 1 < args.len() {
                Some(args[k + 1])
            } else {
                None
            },
        (forall|j: int| 0 <= j < args.len() ==> #[trigger] args[j] != short && args[j] != long)
            ==> flag_value(args, short, long) is None,
        forall|k: int|
            #![trigger args[k]]
            0 <= k < args.len() && ends_with(args[k], ".md"@) && (forall|j: int|
                0 <= j < k ==> !ends_with(#[trigger] args[j], ".md"@)) ==> first_md_arg(args)
                == Some(args[k]),
        (forall|j: int| 0 <= j < args.len() ==> !ends_with(#[trigger] args[j], ".md"@))
            ==> first_md_arg(args) is None,
{
    assert forall|k: int|
        #![trigger args[k]]
        0 <= k < args.len() && (args[k] == short || args[k] == long) && (forall|j: int|
            0 <= j < k ==> #[trigger] args[j] != short && args[j] != long) implies flag_value(
        args,
        short,
        long,
    ) == if k + 1 < args.len() {
        Some(args[k + 1])
    } else {
        None
    } by {
        lemma_flag_index_at(args, short, long, 0, k);
    }
    if forall|j: int| 0 <= j < args.len() ==> #[trigger] args[j] != short && args[j] != long {
        lemma_no_flag(args, short, long, 0);
    }
    assert forall|k: int|
        #![trigger args[k]]
        0 <= k < args.len() && ends_with(args[k], ".md"@) && (forall|j: int|
            0 <= j < k ==> !ends_with(#[trigger] args[j], ".md"@)) implies first_md_arg(args)
        == Some(args[k]) by {
        lemma_first_md_arg_at(args, k);
    }
    if forall|j: int| 0 <= j < args.len() ==> !ends_with(#[trigger] args[j], ".md"@) {
        lemma_no_md_arg(args);
    }
}

} // verus!
