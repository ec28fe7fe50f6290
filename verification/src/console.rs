//! The text side of the REPL: which lines are commands, what the prompt
//! says in each state, the configuration read from the environment, and the
//! `/state` report.

use vstd::prelude::*;
use crate::error::AppError;
use crate::intent::{opt_view, SessionState};
use crate::session::{state_debug, state_debug_text, Session, SessionModel};
use crate::text::{
    byte_offset, chars_eq, chars_of, decimal, decimal_chars, push_all, push_str, string_of,
    trim, trim_chars, utf8_len,
};

verus! {

broadcast use vstd::string::group_string_axioms;

/// The help text of the REPL.
pub const HELP_TEXT: &'static str = "
Cognitive Writer v3.0 — 对话式写作 Agent
─────────────────────────────────────────

核心工作流:
  写一篇关于<主题>的文章用<风格名>风格    → 生成大纲 → 确认 → 渲染全文 → 发布

状态内指令:
  [大纲确认]  确认/好/没问题 → 渲染全文  |  修改指令 → 调整大纲  |  取消/算了 → 放弃
  [全文确认]  确认/好/没问题 → 注入剪贴板 + 存草稿  |  修改指令 → 局部重绘  |  整体换成<风格名> → 换风格
  [发布确认]  发布/推 → 正式发布  |  只发网站 → 仅网站  |  等一下/先不/看看 → 保留草稿

其他命令:
  /help        显示此帮助
  /quit        退出程序
  /styles      列出风格库（等同于「我的风格库有什么」）
  /state       显示当前状态（调试用）

独立操作 (Idle 状态可用):
  输入 URL     → 学习该文章的写作风格
  列出风格     → 列出所有可用风格文件
  看看<名称>   → 查看风格详情
  删掉<名称>   → 删除指定风格
  重写 <路径> 改成 <指令>  → 根据指令重写文章
  <路径> 改 <指令>          → 局部重绘文件
";

// ── Commands ─────────────────────────────────────────────────────────

/// A `/` command of the REPL.
pub enum Command {
    Help,
    Quit,
    Styles,
    State,
    /// Any other command, trimmed.
    Unknown(String),
}

/// The mathematical value of a [`Command`].
pub enum CommandModel {
    Help,
    Quit,
    Styles,
    State,
    Unknown(Seq<char>),
}

impl View for Command {
    type V = CommandModel;

    open spec fn view(&self) -> CommandModel {
        match self {
            Command::Help => CommandModel::Help,
            Command::Quit => CommandModel::Quit,
            Command::Styles => CommandModel::Styles,
            Command::State => CommandModel::State,
            Command::Unknown(s) => CommandModel::Unknown(s@),
        }
    }
}

/// The command written by `input`, compared after trimming.
pub open spec fn command_of(input: Seq<char>) -> CommandModel {
    let t = trim(input);
    if t == "/help"@ {
        CommandModel::Help
    } else if t == "/quit"@ {
        CommandModel::Quit
    } else if t == "/styles"@ {
        CommandModel::Styles
    } else if t == "/state"@ {
        CommandModel::State
    } else {
        CommandModel::Unknown(t)
    }
}

/// Parses a `/` command.
pub fn parse_command(input: &str) -> (c: Command)
    ensures
        c@ == command_of(input@),
{
    let t = trim_chars(chars_of(input).as_slice());
    if chars_eq(t.as_slice(), chars_of("/help").as_slice()) {
        Command::Help
    } else if chars_eq(t.as_slice(), chars_of("/quit").as_slice()) {
        Command::Quit
    } else if chars_eq(t.as_slice(), chars_of("/styles").as_slice()) {
        Command::Styles
    } else if chars_eq(t.as_slice(), chars_of("/state").as_slice()) {
        Command::State
    } else {
        Command::Unknown(string_of(t.as_slice()))
    }
}

impl Command {
    /// Whether the REPL ends after this command (only `/quit`).
    pub fn exits(&self) -> (r: bool)
        ensures
            r == (self is Quit),
    {
        match self {
            Command::Quit => true,
            _ => false,
        }
    }
}

/// The answer to an unknown command.
pub fn unknown_command_message(command: &str) -> (r: String)
    ensures
        r@ == "未知命令: "@ + command@ + ". 输入 /help 查看帮助。"@,
{
    let mut v = chars_of("未知命令: ");
    push_str(&mut v, command);
    push_str(&mut v, ". 输入 /help 查看帮助。");
    string_of(v.as_slice())
}

/// What a line typed at the REPL is.
pub enum Line {
    /// An empty line, ignored.
    Skip,
    /// A line starting with `/`.
    Command(Command),
    /// Anything else: natural-language input.
    Text,
}

/// Sorts a line read by the REPL.
pub fn classify_line(input: &str) -> (r: Line)
    ensures
        input@.len() == 0 ==> r is Skip,
        input@.len() > 0 && input@[0] == '/' ==> (r matches Line::Command(c) && c@ == command_of(
            input@,
        )),
        input@.len() > 0 && input@[0] != '/' ==> r is Text,
{
    let v = chars_of(input);
    if v.len() == 0 {
        Line::Skip
    } else if v[0] == '/' {
        Line::Command(parse_command(input))
    } else {
        Line::Text
    }
}

// ── Prompt ───────────────────────────────────────────────────────────

/// The prompt shown in each state.
pub open spec fn prompt_text(state: SessionState) -> Seq<char> {
    match state {
        SessionState::Idle => "> "@,
        SessionState::WaitingForOutline => "[大纲确认] > "@,
        SessionState::WaitingForFulltext => "[全文确认] > "@,
        SessionState::WaitingForPublish => "[发布确认] > "@,
    }
}

/// The prompt for `state`.
pub fn state_prompt(state: SessionState) -> (r: String)
    ensures
        r@ == prompt_text(state),
{
    match state {
        SessionState::Idle => "> ".to_owned(),
        SessionState::WaitingForOutline => "[大纲确认] > ".to_owned(),
        SessionState::WaitingForFulltext => "[全文确认] > ".to_owned(),
        SessionState::WaitingForPublish => "[发布确认] > ".to_owned(),
    }
}

// ── Configuration ────────────────────────────────────────────────────

/// The settings read from the environment.
pub struct Config {
    pub api_key: String,
    pub base_url: String,
    pub model: String,
    pub website_path: String,
}

/// The default API base URL.
pub const DEFAULT_BASE_URL: &'static str = "https://api.openai.com/v1";

/// The default model.
pub const DEFAULT_MODEL: &'static str = "gpt-4o";

/// `value`, or `default` where it is unset.
pub open spec fn or_default(value: Option<String>, default: Seq<char>) -> Seq<char> {
    match value {
        Some(v) => v@,
        None => default,
    }
}

fn value_or(value: Option<String>, default: &str) -> (r: String)
    ensures
        r@ == or_default(value, default@),
{
    match value {
        Some(v) => v,
        None => default.to_owned(),
    }
}

/// The configuration from the environment variables `API_KEY`, `BASE_URL`,
/// `MODEL` and `WEBSITE_PATH` (each `None` where unset).  `API_KEY` is
/// required; the others have defaults.
pub fn config_from_env(
    api_key: Option<String>,
    base_url: Option<String>,
    model: Option<String>,
    website_path: Option<String>,
) -> (r: Result<Config, AppError>)
    ensures
        api_key is None ==> (r matches Err(AppError::EnvVar(m)) && m@ == "API_KEY 未设置"@),
        api_key is Some ==> (r matches Ok(c) && c.api_key@ == api_key->0@ && c.base_url@
            == or_default(base_url, DEFAULT_BASE_URL@) && c.model@ == or_default(
            model,
            DEFAULT_MODEL@,
        ) && c.website_path@ == or_default(website_path, Seq::empty())),
{
    proof {
        reveal_strlit("");
    }
    match api_key {
        None => Err(AppError::EnvVar("API_KEY 未设置".to_owned())),
        Some(key) => Ok(
            Config {
                api_key: key,
                base_url: value_or(base_url, DEFAULT_BASE_URL),
                model: value_or(model, DEFAULT_MODEL),
                website_path: value_or(website_path, ""),
            },
        ),
    }
}

/// The message of a missing environment variable in command-line mode.
pub fn missing_env_message(key: &str) -> (r: String)
    ensures
        r@ == "环境变量 `"@ + key@ + "` 未设置，请检查 .env 文件"@,
{
    let mut v = chars_of("环境变量 `");
    push_str(&mut v, key);
    push_str(&mut v, "` 未设置，请检查 .env 文件");
    string_of(v.as_slice())
}

// ── The /state report ────────────────────────────────────────────────

/// A text field of the report: the text, or `(无)`.
pub open spec fn text_field(label: Seq<char>, value: Option<Seq<char>>) -> Seq<char> {
    label + match value {
        Some(v) => v,
        None => "(无)"@,
    }
}

/// A size field of the report: the UTF-8 byte length, or `(无)`.
pub open spec fn size_field(label: Seq<char>, value: Option<Seq<char>>) -> Seq<char> {
    label + match value {
        Some(v) => decimal(utf8_len(v)) + " 字符"@,
        None => "(无)"@,
    }
}

/// The lines of the `/state` report.
pub open spec fn report_lines(s: SessionModel, model: Seq<char>, base_url: Seq<char>, website_path: Seq<char>) -> Seq<Seq<char>> {
    seq![
        "状态: "@ + state_debug(s.state),
        text_field("话题: "@, s.topic),
        size_field("大纲: "@, s.outline),
        size_field("全文: "@, s.fulltext),
        text_field("风格: "@, s.style_name),
        text_field("slug: "@, s.slug),
        "配置: model="@ + model + " base_url="@ + base_url,
        "网站路径: "@ + if website_path.len() == 0 {
            "(未配置)"@
        } else {
            website_path
        },
    ]
}

fn text_line(label: &str, value: &Option<String>) -> (r: String)
    ensures
        r@ == text_field(label@, opt_view(*value)),
{
    let mut v = chars_of(label);
    match value {
        Some(x) => push_str(&mut v, x.as_str()),
        None => push_str(&mut v, "(无)"),
    }
    string_of(v.as_slice())
}

fn size_line(label: &str, value: &Option<String>) -> (r: String)
    ensures
        r@ == size_field(label@, opt_view(*value)),
{
    let mut v = chars_of(label);
    match value {
        Some(x) => {
            let c = chars_of(x.as_str());
            let n = byte_offset(c.as_slice(), c.len());
            assert(c@.take(c@.len() as int) =~= c@);
            let d = decimal_chars(n);
            push_all(&mut v, d.as_slice());
            push_str(&mut v, " 字符");
        },
        None => push_str(&mut v, "(无)"),
    }
    string_of(v.as_slice())
}

/// The lines of the `/state` report (between two separators).
pub fn state_report(session: &Session, config: &Config) -> (r: Vec<String>)
    ensures
        r@.map_values(|l: String| l@) == report_lines(
            session@,
            config.model@,
            config.base_url@,
            config.website_path@,
        ),
{
    let mut out: Vec<String> = Vec::new();
    let mut v = chars_of("状态: ");
    let st = state_debug_text(session.state);
    push_str(&mut v, st.as_str());
    out.push(string_of(v.as_slice()));
    out.push(text_line("话题: ", &session.current_topic));
    out.push(size_line("大纲: ", &session.current_outline));
    out.push(size_line("全文: ", &session.current_fulltext));
    out.push(text_line("风格: ", &session.current_style_name));
    out.push(text_line("slug: ", &session.current_slug));
    let mut c = chars_of("配置: model=");
    push_str(&mut c, config.model.as_str());
    push_str(&mut c, " base_url=");
    push_str(&mut c, config.base_url.as_str());
    out.push(string_of(c.as_slice()));
    let mut w = chars_of("网站路径: ");
    let wp = chars_of(config.website_path.as_str());
    if wp.len() == 0 {
        push_str(&mut w, "(未配置)");
    } else {
        push_all(&mut w, wp.as_slice());
    }
    out.push(string_of(w.as_slice()));
    assert(out@.map_values(|l: String| l@) =~= report_lines(
        session@,
        config.model@,
        config.base_url@,
        config.website_path@,
    ));
    out
}

} // verus!
