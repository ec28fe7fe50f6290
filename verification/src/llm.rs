//! The OpenAI-compatible chat-completions exchange: the request that is
//! sent, what is made of the answer, and the retry policy around it.
//!
//! The HTTP call itself, and the JSON encoding of these types, happen
//! outside the library.

use vstd::prelude::*;
use crate::error::AppError;
use crate::text::{chars_of, decimal, decimal_chars, push_all, push_str, string_of, utf8_len};

verus! {

broadcast use vstd::string::group_string_axioms;

// ── Request and response types ───────────────────────────────────────

/// A chat-completions request.
pub struct ChatRequest {
    pub model: String,
    pub messages: Vec<Message>,
}

/// One message of a request.
pub struct Message {
    pub role: String,
    pub content: String,
}

/// A chat-completions response.
pub struct ChatResponse {
    pub choices: Vec<Choice>,
}

/// One choice of a response.
pub struct Choice {
    pub message: ResponseMessage,
}

/// The message of a choice.
pub struct ResponseMessage {
    pub content: String,
}

// ── The request ──────────────────────────────────────────────────────

/// `s` without its trailing `c` characters (`str::trim_end_matches`).
pub open spec fn strip_trailing(s: Seq<char>, c: char) -> Seq<char>
    decreases s.len(),
{
    if s.len() > 0 && s.last() == c {
        strip_trailing(s.drop_last(), c)
    } else {
        s
    }
}

/// The endpoint URL: the base URL without trailing slashes, then
/// `/chat/completions`.
pub fn chat_completions_url(base_url: &str) -> (r: String)
    ensures
        r@ == strip_trailing(base_url@, '/') + "/chat/completions"@,
{
    let v = chars_of(base_url);
    let mut n = v.len();
    assert(v@.take(n as int) =~= v@);
    while n > 0 && v[n - 1] == '/'
        invariant
            n <= v@.len(),
            strip_trailing(v@.take(n as int), '/') == strip_trailing(v@, '/'),
        decreases n,
    {
        assert(v@.take(n as int).drop_last() =~= v@.take(n - 1));
        n -= 1;
    }
    assert(v@.take(v@.len() as int) =~= v@);
    let mut u: Vec<char> = Vec::new();
    let mut i: usize = 0;
    while i < n
        invariant
            i <= n <= v@.len(),
            u@ == v@.take(i as int),
        decreases n - i,
    {
        assert(v@.take(i + 1) =~= v@.take(i as int).push(v@[i as int]));
        u.push(v[i]);
        i += 1;
    }
    push_str(&mut u, "/chat/completions");
    string_of(u.as_slice())
}

/// The `Authorization` header value.
pub fn bearer_header(api_key: &str) -> (r: String)
    ensures
        r@ == "Bearer "@ + api_key@,
{
    let mut v = chars_of("Bearer ");
    push_str(&mut v, api_key);
    string_of(v.as_slice())
}

/// The request: the system prompt, then the user content.
pub fn chat_request(model: &str, system_prompt: &str, user_content: &str) -> (r: ChatRequest)
    ensures
        r.model@ == model@,
        r.messages@.len() == 2,
        r.messages@[0].role@ == "system"@,
        r.messages@[0].content@ == system_prompt@,
        r.messages@[1].role@ == "user"@,
        r.messages@[1].content@ == user_content@,
{
    let mut messages: Vec<Message> = Vec::new();
    messages.push(Message { role: "system".to_owned(), content: system_prompt.to_owned() });
    messages.push(Message { role: "user".to_owned(), content: user_content.to_owned() });
    ChatRequest { model: model.to_owned(), messages }
}

// ── The response ─────────────────────────────────────────────────────

/// Whether an HTTP status is a success (`2xx`).
pub open spec fn is_success(status: u16) -> bool {
    200 <= status <= 299
}

/// The body of a successful answer, or the API error of a failed one.
pub fn check_status(status: u16, body: String) -> (r: Result<String, AppError>)
    ensures
        is_success(status) ==> (r matches Ok(b) && b@ == body@),
        !is_success(status) ==> (r matches Err(AppError::ApiError { status: s, body: b }) && s
            == status && b@ == body@),
{
    if 200 <= status && status <= 299 {
        Ok(body)
    } else {
        Err(AppError::ApiError { status, body })
    }
}

/// The longest prefix of `s` of at most `n` UTF-8 bytes, where that prefix
/// ends on a character boundary at byte `min(n, len)`.
pub open spec fn byte_prefix(s: Seq<char>, n: nat) -> Seq<char> {
    s.take(choose|k: int| 0 <= k <= s.len() && utf8_len(s.take(k)) == if utf8_len(s) < n {
        utf8_len(s)
    } else {
        n
    })
}

/// Whether byte `min(n, len)` of `s` is a character boundary (else slicing
/// there panics).
pub open spec fn cuts_at_boundary(s: Seq<char>, n: nat) -> bool {
    exists|k: int|
        0 <= k <= s.len() && #[trigger] utf8_len(s.take(k)) == if utf8_len(s) < n {
            utf8_len(s)
        } else {
            n
        }
}

/// The longest character prefix of `s` whose UTF-8 length is at most `n`.
fn prefix_within(s: &[char], n: u128) -> (k: usize)
    ensures
        k <= s@.len(),
        utf8_len(s@.take(k as int)) <= n,
        k < s@.len() ==> utf8_len(s@.take(k + 1)) > n,
{
    let mut k: usize = 0;
    let mut bytes: u128 = 0;
    while k < s.len()
        invariant
            k <= s@.len(),
            bytes == utf8_len(s@.take(k as int)),
            bytes <= n,
        decreases s.len() - k,
    {
        let c = s[k];
        let u = c as u32;
        let w: u128 = if u <= 0x7F {
            1
        } else if u <= 0x7FF {
            2
        } else if u <= 0xFFFF {
            3
        } else {
            4
        };
        proof {
            assert(s@.take(k + 1) =~= s@.take(k as int) + seq![c]);
            crate::text::lemma_utf8_len_concat(s@.take(k as int), seq![c]);
            assert(seq![c].drop_first() =~= Seq::<char>::empty());
            assert(utf8_len(Seq::<char>::empty()) == 0);
            assert(seq![c][0] == c);
            assert(utf8_len(seq![c]) == crate::text::utf8_width(c));
        }
        if w > n - bytes {
            return k;
        }
        bytes = bytes + w;
        k += 1;
    }
    k
}

/// UTF-8 length grows with the prefix.
proof fn lemma_utf8_len_take_monotone(s: Seq<char>, a: int, b: int)
    requires
        0 <= a <= b <= s.len(),
    ensures
        utf8_len(s.take(a)) <= utf8_len(s.take(b)),
{
    assert(s.take(b) =~= s.take(a) + s.subrange(a, b));
    crate::text::lemma_utf8_len_concat(s.take(a), s.subrange(a, b));
}

/// The parse error of an answer: the parser's message, then the first 500
/// bytes of the raw body.
pub fn parse_failure(error_text: &str, raw_body: &str) -> (r: AppError)
    requires
        cuts_at_boundary(raw_body@, 500),
    ensures
        r matches AppError::Parse(m) && m@ == error_text@ + "\n原始响应: "@ + byte_prefix(
            raw_body@,
            500,
        ),
{
    let body = chars_of(raw_body);
    let k = prefix_within(body.as_slice(), 500);
    proof {
        let s = raw_body@;
        let target = if utf8_len(s) < 500 {
            utf8_len(s)
        } else {
            500
        };
        let j = choose|j: int| 0 <= j <= s.len() && utf8_len(s.take(j)) == target;
        assert(s.take(s.len() as int) =~= s);
        if (k as int) < j {
            lemma_utf8_len_take_monotone(s, k + 1, j);
        } else if j < (k as int) {
            lemma_utf8_len_take_monotone(s, k as int, s.len() as int);
            lemma_utf8_len_take_monotone(s, j + 1, k as int);
            assert(s.take(j + 1) =~= s.take(j) + seq![s[j]]);
            crate::text::lemma_utf8_len_concat(s.take(j), seq![s[j]]);
            assert(seq![s[j]].drop_first() =~= Seq::<char>::empty());
            assert(seq![s[j]][0] == s[j]);
        }
        assert(k as int == j);
    }
    let mut v = chars_of(error_text);
    push_str(&mut v, "\n原始响应: ");
    let mut i: usize = 0;
    while i < k
        invariant
            i <= k <= body@.len(),
            v@ == error_text@ + "\n原始响应: "@ + body@.take(i as int),
        decreases k - i,
    {
        assert(body@.take(i + 1) =~= body@.take(i as int).push(body@[i as int]));
        v.push(body[i]);
        i += 1;
    }
    AppError::Parse(string_of(v.as_slice()))
}

/// The content of the first choice, or [`AppError::EmptyChoices`].
pub fn first_choice_content(response: &ChatResponse) -> (r: Result<String, AppError>)
    ensures
        response.choices@.len() > 0 ==> (r matches Ok(c) && c@
            == response.choices@[0].message.content@),
        response.choices@.len() == 0 ==> r matches Err(AppError::EmptyChoices),
{
    if response.choices.len() == 0 {
        Err(AppError::EmptyChoices)
    } else {
        Ok(response.choices[0].message.content.clone())
    }
}

// ── Retrying ─────────────────────────────────────────────────────────

/// Retries of one request: at most `max_retries` attempts, two seconds
/// apart.  `attempt` is the number of the attempt under way.
pub struct Retry {
    pub max_retries: u32,
    pub attempt: u32,
}

/// What to do next with a request under retry.
pub enum RetryAction {
    /// Warn with the text, wait two seconds, then make the next attempt.
    Wait(String),
    /// Done, with this result.
    Finish(Result<String, AppError>),
}

/// The warning after a failed attempt that is retried.
pub open spec fn retry_warning(label: Seq<char>, attempt: nat, error: Seq<char>) -> Seq<char> {
    "[warn] "@ + label + " 第 "@ + decimal(attempt) + " 次失败: "@ + error + "，2 秒后重试 ..."@
}

/// Whether another attempt follows attempt `attempt` of `max`, given
/// whether it succeeded.
pub open spec fn retry_continues(attempt: nat, max: nat, ok: bool) -> bool {
    !ok && attempt < max
}

/// A whole run of retries from attempt `attempt` of `max`, `outcomes[k]`
/// being what attempt `k + 1` gives: the number of the attempt that
/// finishes, and the run's result, which is that attempt's outcome.  This is
/// what repeated calls of [`Retry::record`] give (see its contract).
pub open spec fn retry_run(attempt: nat, max: nat, outcomes: Seq<Result<String, AppError>>) -> (
    nat,
    Result<String, AppError>,
)
    decreases max - attempt,
{
    if attempt >= 1 && retry_continues(attempt, max, outcomes[attempt - 1] is Ok) {
        retry_run(attempt + 1, max, outcomes)
    } else {
        (attempt, outcomes[attempt - 1])
    }
}

proof fn lemma_retry_run(attempt: nat, max: nat, outcomes: Seq<Result<String, AppError>>)
    requires
        1 <= attempt <= max,
        forall|j: int| 0 <= j < attempt - 1 ==> #[trigger] outcomes[j] is Err,
    ensures
        forall|k: int|
            #![trigger outcomes[k]]
            attempt - 1 <= k < max && outcomes[k] is Ok && (forall|j: int|
                0 <= j < k ==> #[trigger] outcomes[j] is Err) ==> retry_run(attempt, max, outcomes)
                == ((k + 1) as nat, outcomes[k]),
        (forall|k: int| 0 <= k < max ==> #[trigger] outcomes[k] is Err) ==> retry_run(
            attempt,
            max,
            outcomes,
        ) == (max, outcomes[max - 1]),
    decreases max - attempt,
{
    if retry_continues(attempt, max, outcomes[attempt - 1] is Ok) {
        lemma_retry_run(attempt + 1, max, outcomes);
    }
}

/// A retried request with `max >= 1` attempts: where the first success
/// comes at call `k + 1 <= max`, exactly `k + 1` calls are made and the
/// request gives that success; where every one of the `max` calls fails,
/// exactly `max` calls are made and the request gives the last failure.
/// (With `max == 0` no call is made: [`Retry::start`] gives `None`, and the
/// request fails with [`no_attempt_error`].)
pub proof fn law_retry_run(max: nat, outcomes: Seq<Result<String, AppError>>)
    requires
        max >= 1,
    ensures
        forall|k: int|
            #![trigger outcomes[k]]
            0 <= k < max && outcomes[k] is Ok && (forall|j: int|
                0 <= j < k ==> #[trigger] outcomes[j] is Err) ==> retry_run(1, max, outcomes) == (
            (k + 1) as nat,
            outcomes[k],
            ),
        (forall|k: int| 0 <= k < max ==> #[trigger] outcomes[k] is Err) ==> retry_run(
            1,
            max,
            outcomes,
        ) == (max, outcomes[max - 1]),
{
    lemma_retry_run(1, max, outcomes);
}

impl Retry {
    /// Whether the retry is under way: `1 <= attempt <= max_retries`.
    pub open spec fn wf(&self) -> bool {
        1 <= self.attempt <= self.max_retries
    }

    /// Starts retrying; `None` where `max_retries` is 0, in which case no
    /// attempt is made and the request fails (see [`no_attempt_error`]).
    pub fn start(max_retries: u32) -> (r: Option<Retry>)
        ensures
            max_retries == 0 <==> r is None,
            r matches Some(t) ==> t.wf() && t.attempt == 1 && t.max_retries == max_retries,
    {
        if max_retries == 0 {
            None
        } else {
            Some(Retry { max_retries, attempt: 1 })
        }
    }

    /// Records the outcome of the current attempt.  A success finishes; a
    /// failure is retried while attempts are left, else it finishes with that
    /// failure.  Step by step, the calls of a run follow [`retry_run`].
    pub fn record(&mut self, label: &str, outcome: Result<String, AppError>) -> (r: RetryAction)
        requires
            old(self).wf(),
        ensures
            final(self).max_retries == old(self).max_retries,
            (r is Wait) == retry_continues(
                old(self).attempt as nat,
                old(self).max_retries as nat,
                outcome is Ok,
            ),
            outcome matches Ok(v) ==> (r matches RetryAction::Finish(Ok(w)) && w == v),
            outcome matches Err(e) ==> (old(self).attempt < old(self).max_retries ==> (
            r matches RetryAction::Wait(w) && final(self).attempt == old(self).attempt + 1
                && final(self).wf() && (e.message_text() is Some ==> w@ == retry_warning(
                label@,
                old(self).attempt as nat,
                e.message_text()->0,
            )))),
            outcome matches Err(e) ==> (old(self).attempt == old(self).max_retries ==> (
            r matches RetryAction::Finish(Err(f)) && f == e)),
            forall|outcomes: Seq<Result<String, AppError>>|
                #![trigger retry_run(old(self).attempt as nat, old(self).max_retries as nat, outcomes)]
                outcomes[old(self).attempt - 1] == outcome ==> retry_run(
                    old(self).attempt as nat,
                    old(self).max_retries as nat,
                    outcomes,
                ) == match r {
                    RetryAction::Wait(_) => retry_run(
                        final(self).attempt as nat,
                        old(self).max_retries as nat,
                        outcomes,
                    ),
                    RetryAction::Finish(res) => (old(self).attempt as nat, res),
                },
    {
        match outcome {
            Ok(v) => RetryAction::Finish(Ok(v)),
            Err(e) => {
                if self.attempt < self.max_retries {
                    let mut w = chars_of("[warn] ");
                    push_str(&mut w, label);
                    push_str(&mut w, " 第 ");
                    let d = decimal_chars(self.attempt as u128);
                    push_all(&mut w, d.as_slice());
                    push_str(&mut w, " 次失败: ");
                    let m = e.message();
                    push_str(&mut w, m.as_str());
                    push_str(&mut w, "，2 秒后重试 ...");
                    self.attempt = self.attempt + 1;
                    RetryAction::Wait(string_of(w.as_slice()))
                } else {
                    RetryAction::Finish(Err(e))
                }
            },
        }
    }
}

/// The error of a retry that was asked to make no attempt.
pub fn no_attempt_error() -> (r: AppError)
    ensures
        r matches AppError::Parse(m) && m@ == "with_retry: max_retries 不能为 0"@,
{
    AppError::Parse("with_retry: max_retries 不能为 0".to_owned())
}


/// The base URL keeps no trailing slash, so the endpoint never has `//`
/// before `chat/completions`.
pub proof fn law_no_trailing_slash(s: Seq<char>)
    ensures
        strip_trailing(s, '/').len() == 0 || strip_trailing(s, '/').last() != '/',
    decreases s.len(),
{
    if s.len() > 0 && s.last() == '/' {
        law_no_trailing_slash(s.drop_last());
    }
}

} // verus!
