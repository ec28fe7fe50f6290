//! The library's error type.

use vstd::prelude::*;
use crate::text::{
    decimal, decimal_chars, push_all, push_str, string_of,
};

verus! {

broadcast use vstd::string::group_string_axioms;

/// Declares std's `std::io::Error` to the verifier, as an opaque type: it is
/// only carried in [`AppError::Io`].
#[verifier::external_type_specification]
#[verifier::external_body]
pub struct ExIoError(std::io::Error);

/// Everything that can go wrong.
#[derive(Debug)]
pub enum AppError {
    /// An environment variable is not set.
    EnvVar(String),
    /// A file could not be read.
    FileRead(String),
    /// A file could not be written.
    FileWrite(String),
    /// The language-model API answered with an error status.
    ApiError { status: u16, body: String },
    /// The request did not go through.
    Network(String),
    /// The response could not be parsed.
    Parse(String),
    /// The response had no choices.
    EmptyChoices,
    /// No clipboard tool worked.
    Clipboard(String),
    /// The style directory holds no usable `.md` file.
    NoStyles(String),
    /// An `AI_EDIT` marker is malformed.
    AiEditParse(String),
    /// An I/O error.
    Io(std::io::Error),
    /// Writing the website draft failed.
    Website(String),
    /// A git command failed.
    Git(String),
    /// The input could not be understood.
    Intent(String),
    /// The intent does not fit the current state (both in debug notation).
    InvalidState { state: String, intent: String },
}

/// `format!("{:?}", s)`: `s` quoted with Rust's debug escapes.
pub uninterp spec fn debug_quoted(s: Seq<char>) -> Seq<char>;

/// Calls std's `Debug` for `str`; the quoted text is named [`debug_quoted`].
#[verifier::external_body]
pub(crate) fn debug_text(s: &str) -> (r: String)
    ensures
        r@ == debug_quoted(s@),
{
    format!("{:?}", s)
}

/// Calls std's `Display` for `std::io::Error`; the text depends on the
/// operating system, so nothing is claimed of it.
#[verifier::external_body]
fn io_error_text(e: &std::io::Error) -> (r: String) {
    format!("{}", e)
}

impl AppError {
    /// The message text of each variant apart from `Io` (whose text comes
    /// from the operating system).
    pub open spec fn message_text(&self) -> Option<Seq<char>> {
        match self {
            AppError::EnvVar(s) => Some("环境变量 `"@ + s@ + "` 未设置"@),
            AppError::FileRead(s) => Some("文件读取失败: "@ + s@),
            AppError::FileWrite(s) => Some("文件写入失败: "@ + s@),
            AppError::ApiError { status, body } => Some(
                "LLM API 错误 (HTTP "@ + decimal(*status as nat) + "): "@ + body@,
            ),
            AppError::Network(s) => Some("网络请求失败: "@ + s@),
            AppError::Parse(s) => Some("API 响应解析失败: "@ + s@),
            AppError::EmptyChoices => Some("API 返回空 choices"@),
            AppError::Clipboard(s) => Some("剪贴板不可用: "@ + s@),
            AppError::NoStyles(s) => Some("风格目录无 .md 文件: "@ + s@),
            AppError::AiEditParse(s) => Some("AI_EDIT 解析错误: "@ + s@),
            AppError::Io(_) => None,
            AppError::Website(s) => Some("网站集成失败: "@ + s@),
            AppError::Git(s) => Some("Git 操作失败: "@ + s@),
            AppError::Intent(s) => Some("无法理解输入: "@ + s@),
            AppError::InvalidState { state, intent } => Some(
                "当前状态下不支持此操作: "@ + debug_quoted(state@) + " ← "@ + debug_quoted(intent@),
            ),
        }
    }

    /// The human-readable message of the error.
    pub fn message(&self) -> (r: String)
        ensures
            self.message_text() is Some ==> r@ == self.message_text()->0,
            self is Io ==> starts_with_io(r@),
    {
        let mut v: Vec<char> = Vec::new();
        match self {
            AppError::EnvVar(s) => {
                push_str(&mut v, "环境变量 `");
                push_str(&mut v, s.as_str());
                push_str(&mut v, "` 未设置");
            },
            AppError::FileRead(s) => {
                push_str(&mut v, "文件读取失败: ");
                push_str(&mut v, s.as_str());
            },
            AppError::FileWrite(s) => {
                push_str(&mut v, "文件写入失败: ");
                push_str(&mut v, s.as_str());
            },
            AppError::ApiError { status, body } => {
                push_str(&mut v, "LLM API 错误 (HTTP ");
                let d = decimal_chars(*status as u128);
                push_all(&mut v, d.as_slice());
                push_str(&mut v, "): ");
                push_str(&mut v, body.as_str());
            },
            AppError::Network(s) => {
                push_str(&mut v, "网络请求失败: ");
                push_str(&mut v, s.as_str());
            },
            AppError::Parse(s) => {
                push_str(&mut v, "API 响应解析失败: ");
                push_str(&mut v, s.as_str());
            },
            AppError::EmptyChoices => {
                push_str(&mut v, "API 返回空 choices");
            },
            AppError::Clipboard(s) => {
                push_str(&mut v, "剪贴板不可用: ");
                push_str(&mut v, s.as_str());
            },
            AppError::NoStyles(s) => {
                push_str(&mut v, "风格目录无 .md 文件: ");
                push_str(&mut v, s.as_str());
            },
            AppError::AiEditParse(s) => {
                push_str(&mut v, "AI_EDIT 解析错误: ");
                push_str(&mut v, s.as_str());
            },
            AppError::Io(e) => {
                push_str(&mut v, "IO 错误: ");
                let t = io_error_text(e);
                let ghost head = v@;
                push_str(&mut v, t.as_str());
                assert(v@.take(head.len() as int) =~= head);
            },
            AppError::Website(s) => {
                push_str(&mut v, "网站集成失败: ");
                push_str(&mut v, s.as_str());
            },
            AppError::Git(s) => {
                push_str(&mut v, "Git 操作失败: ");
                push_str(&mut v, s.as_str());
            },
            AppError::Intent(s) => {
                push_str(&mut v, "无法理解输入: ");
                push_str(&mut v, s.as_str());
            },
            AppError::InvalidState { state, intent } => {
                let a = debug_text(state.as_str());
                let b = debug_text(intent.as_str());
                let m = invalid_state_text(a.as_str(), b.as_str());
                push_str(&mut v, m.as_str());
            },
        }
        string_of(v.as_slice())
    }
}

/// The message of a refused intent, from the quoted state and intent.
pub fn invalid_state_text(state_quoted: &str, intent_quoted: &str) -> (r: String)
    ensures
        r@ == "当前状态下不支持此操作: "@ + state_quoted@ + " ← "@ + intent_quoted@,
{
    let mut v: Vec<char> = Vec::new();
    push_str(&mut v, "当前状态下不支持此操作: ");
    push_str(&mut v, state_quoted);
    push_str(&mut v, " ← ");
    push_str(&mut v, intent_quoted);
    string_of(v.as_slice())
}

/// The message of an I/O error starts with `IO 错误: `.
pub open spec fn starts_with_io(m: Seq<char>) -> bool {
    crate::text::starts_with(m, "IO 错误: "@)
}

} // verus!
