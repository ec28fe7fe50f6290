use cognitive_writer::error::AppError;
use cognitive_writer::llm::{
    bearer_header, chat_completions_url, chat_request, check_status, first_choice_content,
    no_attempt_error, parse_failure, ChatResponse, Choice, ResponseMessage, Retry, RetryAction,
};

#[test]
fn endpoint_url_drops_trailing_slashes() {
    assert_eq!(
        chat_completions_url("https://api.openai.com/v1"),
        "https://api.openai.com/v1/chat/completions"
    );
    assert_eq!(chat_completions_url("http://x///"), "http://x/chat/completions");
    assert_eq!(chat_completions_url(""), "/chat/completions");
    assert_eq!(bearer_header("k"), "Bearer k");
}

#[test]
fn request_has_system_then_user() {
    let r = chat_request("gpt-4o", "sys", "user text");
    assert_eq!(r.model, "gpt-4o");
    assert_eq!(r.messages.len(), 2);
    assert_eq!(r.messages[0].role, "system");
    assert_eq!(r.messages[0].content, "sys");
    assert_eq!(r.messages[1].role, "user");
    assert_eq!(r.messages[1].content, "user text");
}

#[test]
fn status_is_checked() {
    assert_eq!(check_status(200, "b".to_string()).ok(), Some("b".to_string()));
    assert_eq!(check_status(299, "b".to_string()).ok(), Some("b".to_string()));
    match check_status(404, "nope".to_string()) {
        Err(AppError::ApiError { status, body }) => {
            assert_eq!(status, 404);
            assert_eq!(body, "nope");
        }
        _ => panic!("expected an API error"),
    }
    assert_eq!(
        check_status(500, "x".to_string()).err().unwrap().message(),
        "LLM API 错误 (HTTP 500): x"
    );
}

#[test]
fn parse_failure_keeps_500_bytes() {
    let body = "a".repeat(600);
    match parse_failure("bad json", &body) {
        AppError::Parse(m) => assert_eq!(m, format!("bad json\n原始响应: {}", "a".repeat(500))),
        _ => panic!("expected a parse error"),
    }
    match parse_failure("e", "短") {
        AppError::Parse(m) => assert_eq!(m, "e\n原始响应: 短"),
        _ => panic!("expected a parse error"),
    }
}

#[test]
fn first_choice_or_empty() {
    let empty = ChatResponse { choices: vec![] };
    assert!(matches!(first_choice_content(&empty), Err(AppError::EmptyChoices)));
    let two = ChatResponse {
        choices: vec![
            Choice { message: ResponseMessage { content: "one".to_string() } },
            Choice { message: ResponseMessage { content: "two".to_string() } },
        ],
    };
    assert_eq!(first_choice_content(&two).ok(), Some("one".to_string()));
}

#[test]
fn retry_attempts_up_to_the_limit() {
    assert!(Retry::start(0).is_none());
    assert_eq!(
        no_attempt_error().message(),
        "API 响应解析失败: with_retry: max_retries 不能为 0"
    );
    let mut r = Retry::start(3).unwrap();
    match r.record("大纲生成", Err(AppError::Network("timeout".to_string()))) {
        RetryAction::Wait(w) => {
            assert_eq!(w, "[warn] 大纲生成 第 1 次失败: 网络请求失败: timeout，2 秒后重试 ...")
        }
        _ => panic!("expected a retry"),
    }
    assert!(matches!(r.record("x", Err(AppError::EmptyChoices)), RetryAction::Wait(_)));
    assert_eq!(r.attempt, 3);
    match r.record("x", Err(AppError::EmptyChoices)) {
        RetryAction::Finish(Err(AppError::EmptyChoices)) => {}
        _ => panic!("expected to give up"),
    }
    let mut r = Retry::start(2).unwrap();
    match r.record("x", Ok("done".to_string())) {
        RetryAction::Finish(Ok(v)) => assert_eq!(v, "done"),
        _ => panic!("expected success"),
    }
}

/// Feeds the outcomes to a retry of `max` attempts until it finishes; gives
/// the number of attempts made and the result.
fn run_retry(max: u32, outcomes: Vec<Result<String, AppError>>) -> (usize, Result<String, AppError>) {
    let mut r = Retry::start(max).unwrap();
    let mut calls = 0;
    for outcome in outcomes {
        calls += 1;
        if let RetryAction::Finish(res) = r.record("x", outcome) {
            return (calls, res);
        }
    }
    panic!("the retry asked for more outcomes than given");
}

#[test]
fn retry_run_stops_at_first_success_or_last_failure() {
    let fail = |m: &str| Err(AppError::Network(m.to_string()));
    let (calls, res) = run_retry(3, vec![fail("a"), Ok("b".to_string()), fail("c")]);
    assert_eq!(calls, 2);
    assert!(matches!(res, Ok(v) if v == "b"));
    let (calls, res) = run_retry(3, vec![fail("a"), fail("b"), fail("c"), Ok("d".to_string())]);
    assert_eq!(calls, 3);
    assert!(matches!(res, Err(AppError::Network(m)) if m == "c"));
    let (calls, res) = run_retry(1, vec![fail("only")]);
    assert_eq!(calls, 1);
    assert!(matches!(res, Err(AppError::Network(m)) if m == "only"));
}
