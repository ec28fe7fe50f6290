//! The personal website: MDX drafts and the git commands that publish them.

use vstd::prelude::*;
use crate::error::AppError;
use crate::text::{
    chars_of, contains_seq, contains_str, ends_with, first_index, lemma_first_index, lines,
    occurs_at, lines_of, push_all, push_str, replace_all,
    replace_all_chars, rfind_chars, last_index, lemma_last_index_upto, slice_chars, starts_with,
    starts_with_chars, string_of, trim, trim_chars, views,
};

verus! {

broadcast use vstd::string::group_string_axioms;

/// The first line that is neither blank nor a heading, trimmed.
pub open spec fn first_body_line(ls: Seq<Seq<char>>) -> Option<Seq<char>>
    decreases ls.len(),
{
    if ls.len() == 0 {
        None
    } else if trim(ls[0]).len() == 0 || starts_with(trim(ls[0]), "#"@) {
        first_body_line(ls.drop_first())
    } else {
        Some(trim(ls[0]))
    }
}

/// `t` shortened to `max_chars` characters: kept whole when short enough;
/// otherwise cut at `max_chars`, back to the last space if there is one,
/// and followed by `...`.
pub open spec fn shorten(t: Seq<char>, max_chars: nat) -> Seq<char> {
    if t.len() <= max_chars {
        t
    } else {
        let cut = t.take(max_chars as int);
        match last_index(cut, seq![' ']) {
            Some(sp) => cut.take(sp) + "..."@,
            None => cut + "..."@,
        }
    }
}

/// The summary of a Markdown text: its first body line, shortened.
pub open spec fn summary_of(markdown: Seq<char>, max_chars: nat) -> Seq<char> {
    match first_body_line(lines(markdown)) {
        Some(t) => shorten(t, max_chars),
        None => Seq::empty(),
    }
}

/// The summary of a Markdown text (see [`summary_of`]).
pub fn extract_summary(markdown: &str, max_chars: usize) -> (r: String)
    ensures
        r@ == summary_of(markdown@, max_chars as nat),
{
    let s = chars_of(markdown);
    let ls = lines_of(s.as_slice());
    let ghost lv = views(ls@);
    let hash = chars_of("#");
    let mut i: usize = 0;
    assert(lv.skip(0) == lv);
    while i < ls.len()
        invariant
            i <= ls@.len(),
            lv == views(ls@),
            lv == lines(markdown@),
            hash@ == "#"@,
            first_body_line(lv) == first_body_line(lv.skip(i as int)),
        decreases ls.len() - i,
    {
        assert(lv.skip(i as int)[0] == ls@[i as int]@);
        assert(lv.skip(i as int).drop_first() == lv.skip(i + 1));
        let t = trim_chars(ls[i].as_slice());
        if t.len() == 0 || starts_with_chars(t.as_slice(), hash.as_slice()) {
            i += 1;
        } else {
            if t.len() <= max_chars {
                return string_of(t.as_slice());
            }
            let cut = slice_chars(t.as_slice(), 0, max_chars);
            assert(cut@ == t@.take(max_chars as int));
            let space = vec![' '];
            assert(space@ == seq![' ']);
            match rfind_chars(cut.as_slice(), space.as_slice()) {
                Some(sp) => {
                    proof {
                        lemma_last_index_upto(cut@, space@, cut@.len() - 1);
                    }
                    let mut out = slice_chars(cut.as_slice(), 0, sp);
                    assert(out@ == cut@.take(sp as int));
                    push_str(&mut out, "...");
                    return string_of(out.as_slice());
                },
                None => {
                    let mut out = cut;
                    push_str(&mut out, "...");
                    return string_of(out.as_slice());
                },
            }
        }
    }
    assert(lv.skip(i as int).len() == 0);
    string_of(Vec::<char>::new().as_slice())
}

/// `s` with `"` escaped as `\"` (for a double-quoted YAML value).
pub open spec fn escape_quotes(s: Seq<char>) -> Seq<char> {
    replace_all(s, seq!['"'], seq!['\\', '"'])
}

/// The MDX draft: YAML front matter (title, date, 150-character summary,
/// quotes escaped), a blank line, then the body.
pub open spec fn mdx_text(title: Seq<char>, date: Seq<char>, body: Seq<char>) -> Seq<char> {
    "---\ntitle: \""@ + escape_quotes(title) + "\"\ndate: \""@ + date + "\"\nsummary: \""@
        + escape_quotes(summary_of(body, 150)) + "\"\n---\n\n"@ + body
}

fn escape_quotes_chars(s: &[char]) -> (v: Vec<char>)
    ensures
        v@ == escape_quotes(s@),
{
    let q = vec!['"'];
    let e = vec!['\\', '"'];
    assert(q@ == seq!['"']);
    assert(e@ == seq!['\\', '"']);
    replace_all_chars(s, q.as_slice(), e.as_slice())
}

/// The content of the MDX draft of an article (see [`mdx_text`]).
pub fn mdx_content(title: &str, date: &str, markdown_body: &str) -> (r: String)
    ensures
        r@ == mdx_text(title@, date@, markdown_body@),
{
    let summary = extract_summary(markdown_body, 150);
    let et = escape_quotes_chars(chars_of(title).as_slice());
    let es = escape_quotes_chars(chars_of(summary.as_str()).as_slice());
    let mut v: Vec<char> = Vec::new();
    push_str(&mut v, "---\ntitle: \"");
    push_all(&mut v, et.as_slice());
    push_str(&mut v, "\"\ndate: \"");
    push_str(&mut v, date);
    push_str(&mut v, "\"\nsummary: \"");
    push_all(&mut v, es.as_slice());
    push_str(&mut v, "\"\n---\n\n");
    push_str(&mut v, markdown_body);
    string_of(v.as_slice())
}

/// The draft file published for `slug`, relative to the website root.
pub fn published_file(slug: &str) -> (r: String)
    ensures
        r@ == "content/signal/"@ + slug@ + ".mdx"@,
{
    let mut v = chars_of("content/signal/");
    push_str(&mut v, slug);
    push_str(&mut v, ".mdx");
    string_of(v.as_slice())
}

/// The commit message for publishing `slug`.
pub fn publish_commit_message(slug: &str) -> (r: String)
    ensures
        r@ == "post: "@ + slug@,
{
    let mut v = chars_of("post: ");
    push_str(&mut v, slug);
    string_of(v.as_slice())
}

/// The public URL of a published `slug`.
pub fn published_url(slug: &str) -> (r: String)
    ensures
        r@ == "https://khlilo.xyz/signal/"@ + slug@,
{
    let mut v = chars_of("https://khlilo.xyz/signal/");
    push_str(&mut v, slug);
    string_of(v.as_slice())
}

/// The output of a failed git command: the trimmed stdout and stderr, one
/// per line, leaving out an empty one.
pub open spec fn combined_output(stdout: Seq<char>, stderr: Seq<char>) -> Seq<char> {
    if trim(stdout).len() == 0 {
        trim(stderr)
    } else if trim(stderr).len() == 0 {
        trim(stdout)
    } else {
        trim(stdout) + seq!['\n'] + trim(stderr)
    }
}

/// The output of a failed git command (see [`combined_output`]).
pub fn combine_git_output(stdout: &str, stderr: &str) -> (r: String)
    ensures
        r@ == combined_output(stdout@, stderr@),
{
    let o = trim_chars(chars_of(stdout).as_slice());
    let e = trim_chars(chars_of(stderr).as_slice());
    if o.len() == 0 {
        return string_of(e.as_slice());
    }
    if e.len() == 0 {
        return string_of(o.as_slice());
    }
    let mut v = o;
    v.push('\n');
    push_all(&mut v, e.as_slice());
    string_of(v.as_slice())
}

/// The arguments joined with single spaces.
pub open spec fn joined_args(args: Seq<Seq<char>>) -> Seq<char>
    decreases args.len(),
{
    if args.len() == 0 {
        Seq::empty()
    } else if args.len() == 1 {
        args[0]
    } else {
        joined_args(args.drop_last()) + seq![' '] + args.last()
    }
}

/// The views of a vector of strings.
pub open spec fn string_views(v: Seq<String>) -> Seq<Seq<char>> {
    v.map_values(|s: String| s@)
}

/// The error text of a failed git command: `git <args> 失败: <trimmed stderr>`.
pub fn git_failure_message(args: &Vec<String>, stderr: &str) -> (r: String)
    ensures
        r@ == "git "@ + joined_args(string_views(args@)) + " 失败: "@ + trim(stderr@),
{
    let mut joined: Vec<char> = Vec::new();
    let mut j: usize = 0;
    while j < args.len()
        invariant
            j <= args@.len(),
            joined@ == joined_args(string_views(args@).take(j as int)),
        decreases args.len() - j,
    {
        assert(string_views(args@).take(j + 1).drop_last() == string_views(args@).take(j as int));
        assert(string_views(args@).take(j + 1).last() == args@[j as int]@);
        if j > 0 {
            joined.push(' ');
        } else {
            assert(joined@ == Seq::<char>::empty());
        }
        push_str(&mut joined, args[j].as_str());
        j += 1;
    }
    assert(string_views(args@).take(args@.len() as int) == string_views(args@));
    let mut v = chars_of("git ");
    push_all(&mut v, joined.as_slice());
    push_str(&mut v, " 失败: ");
    let e = trim_chars(chars_of(stderr).as_slice());
    push_all(&mut v, e.as_slice());
    string_of(v.as_slice())
}


// ── MDX drafts ───────────────────────────────────────────────────────

/// `base` joined with `part` (`Path::join`): an absolute `part` replaces
/// `base`; otherwise a `/` goes between them unless `base` is empty or
/// already ends with one.
pub open spec fn path_join(base: Seq<char>, part: Seq<char>) -> Seq<char> {
    if part.len() > 0 && part[0] == '/' {
        part
    } else if base.len() == 0 || base.last() == '/' {
        base + part
    } else {
        base + seq!['/'] + part
    }
}

/// `base` joined with `part` (see [`path_join`]).
pub fn join_path(base: &str, part: &str) -> (r: String)
    ensures
        r@ == path_join(base@, part@),
{
    let b = chars_of(base);
    let p = chars_of(part);
    if p.len() > 0 && p[0] == '/' {
        return string_of(p.as_slice());
    }
    let mut v = b;
    if v.len() > 0 && v[v.len() - 1] != '/' {
        v.push('/');
    }
    push_all(&mut v, p.as_slice());
    string_of(v.as_slice())
}

/// Whether `c` is an ASCII decimal digit.
pub open spec fn digit(c: char) -> bool {
    '0' <= c <= '9'
}

/// The value of two ASCII digits.
pub open spec fn two_digit_value(a: char, b: char) -> int {
    ((a as u32) - 48) * 10 + ((b as u32) - 48)
}

/// Whether `y` is a year as chrono's `%Y` writes it: at least four digits,
/// or a sign and at least four digits (outside the years 0 to 9999).
pub open spec fn year_shaped(y: Seq<char>) -> bool {
    ||| (y.len() >= 4 && forall|i: int| 0 <= i < y.len() ==> digit(#[trigger] y[i]))
    ||| (y.len() >= 5 && (y[0] == '+' || y[0] == '-') && forall|i: int|
        1 <= i < y.len() ==> digit(#[trigger] y[i]))
}

/// Whether `d` has the shape of `%Y-%m-%d`: a year, `-`, a month 01 to 12,
/// `-`, a day 01 to 31.
pub open spec fn date_shaped(d: Seq<char>) -> bool {
    let n = d.len() as int;
    &&& n >= 10
    &&& year_shaped(d.take(n - 6))
    &&& d[n - 6] == '-' && d[n - 3] == '-'
    &&& digit(d[n - 5]) && digit(d[n - 4]) && digit(d[n - 2]) && digit(d[n - 1])
    &&& 1 <= two_digit_value(d[n - 5], d[n - 4]) <= 12
    &&& 1 <= two_digit_value(d[n - 2], d[n - 1]) <= 31
}

/// Today's date in local time: chrono `Local::now()` formatted with
/// `%Y-%m-%d`.  Which date it is depends on the clock and is not claimed;
/// its shape is the one chrono documents for these specifiers (a year
/// zero-padded to four digits, signed beyond 0 to 9999; month and day as
/// two digits, 01 to 12 and 01 to 31).
#[verifier::external_body]
fn today() -> (r: String)
    ensures
        date_shaped(r@),
{
    chrono::Local::now().format("%Y-%m-%d").to_string()
}

/// An MDX draft to write: the directory to create, the file, its content.
pub struct MdxDraft {
    pub dir: String,
    pub file: String,
    pub content: String,
}

/// The directory of the drafts of a taxonomy.
pub open spec fn draft_dir(website_path: Seq<char>, taxonomy: Seq<char>) -> Seq<char> {
    path_join(path_join(website_path, "content"@), taxonomy)
}

/// The error for a website root that is not a directory.
pub fn missing_website_error(website_path: &str) -> (e: AppError)
    ensures
        e matches AppError::Website(m) && m@ == "网站项目路径不存在: "@ + website_path@,
{
    let mut v = chars_of("网站项目路径不存在: ");
    push_str(&mut v, website_path);
    AppError::Website(string_of(v.as_slice()))
}

/// The draft of an article for the website at `website_path` (whether that
/// is a directory is `root_is_dir`): `content/<taxonomy>/<slug>.mdx`
/// holding front matter dated today and the body.
pub fn mdx_draft(
    website_path: &str,
    root_is_dir: bool,
    taxonomy: &str,
    slug: &str,
    title: &str,
    markdown_body: &str,
) -> (r: Result<MdxDraft, AppError>)
    ensures
        !root_is_dir ==> (r matches Err(AppError::Website(m)) && m@ == "网站项目路径不存在: "@
            + website_path@),
        root_is_dir ==> (r matches Ok(d) && d.dir@ == draft_dir(website_path@, taxonomy@)
            && d.file@ == path_join(d.dir@, slug@ + ".mdx"@) && exists|date: Seq<char>|
            date_shaped(date) && d.content@ == mdx_text(title@, date, markdown_body@)),
{
    if !root_is_dir {
        return Err(missing_website_error(website_path));
    }
    let date = today();
    let content = mdx_content(title, date.as_str(), markdown_body);
    let base = join_path(website_path, "content");
    let dir = join_path(base.as_str(), taxonomy);
    let mut name = chars_of(slug);
    push_str(&mut name, ".mdx");
    let name = string_of(name.as_slice());
    let file = join_path(dir.as_str(), name.as_str());
    Ok(MdxDraft { dir, file, content })
}

// ── Publishing: git add, commit, push ────────────────────────────────

/// The git commands of publishing, in order.
#[derive(Debug, Clone, Copy, PartialEq, Eq, Structural)]
pub enum PublishStep {
    Add,
    Commit,
    Push,
}

/// How a git command went.
pub enum GitOutcome {
    /// It could not be started (the I/O error's text).
    NotRun(String),
    /// It exited successfully.
    Succeeded,
    /// It exited with an error (its output, as text).
    Failed { stdout: String, stderr: String },
}

/// What publishing does next.
pub enum PublishAction {
    /// Run `git -C <website> <args>` for the step.
    Run { step: PublishStep, args: Vec<String> },
    /// Publishing is over, with the public URL or the error.
    Done(Result<String, AppError>),
}

/// The mathematical value of a [`PublishAction`].
pub enum PublishModel {
    Run(PublishStep, Seq<Seq<char>>),
    Published(Seq<char>),
    GitError(Seq<char>),
    WebsiteError(Seq<char>),
    OtherError,
}

impl View for PublishAction {
    type V = PublishModel;

    open spec fn view(&self) -> PublishModel {
        match self {
            PublishAction::Run { step, args } => PublishModel::Run(*step, string_views(args@)),
            PublishAction::Done(Ok(url)) => PublishModel::Published(url@),
            PublishAction::Done(Err(AppError::Git(m))) => PublishModel::GitError(m@),
            PublishAction::Done(Err(AppError::Website(m))) => PublishModel::WebsiteError(m@),
            PublishAction::Done(Err(_)) => PublishModel::OtherError,
        }
    }
}

/// The mathematical value of a [`GitOutcome`].
pub enum GitOutcomeModel {
    NotRun(Seq<char>),
    Succeeded,
    Failed { stdout: Seq<char>, stderr: Seq<char> },
}

impl View for GitOutcome {
    type V = GitOutcomeModel;

    open spec fn view(&self) -> GitOutcomeModel {
        match self {
            GitOutcome::NotRun(e) => GitOutcomeModel::NotRun(e@),
            GitOutcome::Succeeded => GitOutcomeModel::Succeeded,
            GitOutcome::Failed { stdout, stderr } => GitOutcomeModel::Failed {
                stdout: stdout@,
                stderr: stderr@,
            },
        }
    }
}

/// The arguments of the git command of a step.
pub open spec fn step_args(step: PublishStep, slug: Seq<char>) -> Seq<Seq<char>> {
    match step {
        PublishStep::Add => seq!["add"@, "content/signal/"@ + slug + ".mdx"@],
        PublishStep::Commit => seq!["commit"@, "-m"@, "post: "@ + slug],
        PublishStep::Push => seq!["push"@, "origin"@, "main"@],
    }
}

/// The error text of a git command that could not be started.
pub open spec fn not_run_text(io_error: Seq<char>) -> Seq<char> {
    "无法执行 git: "@ + io_error
}

/// The start of publishing `slug` to the website at `website_path`.
pub open spec fn publish_start(website_path: Seq<char>, root_is_dir: bool, slug: Seq<char>) -> PublishModel {
    if !root_is_dir {
        PublishModel::WebsiteError("网站项目路径不存在: "@ + website_path)
    } else {
        PublishModel::Run(PublishStep::Add, step_args(PublishStep::Add, slug))
    }
}

/// What follows the outcome of a step.  A failed `git add` or `git push` is
/// an error naming the command and its stderr; a failed `git commit` is
/// passed over when its error message says there was nothing to commit.
pub open spec fn publish_after(step: PublishStep, slug: Seq<char>, outcome: GitOutcomeModel) -> PublishModel {
    match step {
        PublishStep::Add => match outcome {
            GitOutcomeModel::Succeeded => PublishModel::Run(
                PublishStep::Commit,
                step_args(PublishStep::Commit, slug),
            ),
            GitOutcomeModel::NotRun(e) => PublishModel::GitError(not_run_text(e)),
            GitOutcomeModel::Failed { stdout, stderr } => PublishModel::GitError(
                "git "@ + joined_args(step_args(PublishStep::Add, slug)) + " 失败: "@ + trim(stderr),
            ),
        },
        PublishStep::Commit => match outcome {
            GitOutcomeModel::Succeeded => PublishModel::Run(
                PublishStep::Push,
                step_args(PublishStep::Push, slug),
            ),
            _ => {
                let detail = match outcome {
                    GitOutcomeModel::NotRun(e) => not_run_text(e),
                    GitOutcomeModel::Failed { stdout, stderr } => combined_output(stdout, stderr),
                    GitOutcomeModel::Succeeded => Seq::empty(),
                };
                let message = "Git 操作失败: "@ + detail;
                if contains_seq(message, "nothing to commit"@) {
                    PublishModel::Run(PublishStep::Push, step_args(PublishStep::Push, slug))
                } else {
                    PublishModel::GitError(message)
                }
            },
        },
        PublishStep::Push => match outcome {
            GitOutcomeModel::Succeeded => PublishModel::Published(
                "https://khlilo.xyz/signal/"@ + slug,
            ),
            GitOutcomeModel::NotRun(e) => PublishModel::GitError(not_run_text(e)),
            GitOutcomeModel::Failed { stdout, stderr } => PublishModel::GitError(
                "git "@ + joined_args(step_args(PublishStep::Push, slug)) + " 失败: "@ + trim(stderr),
            ),
        },
    }
}

fn step_arguments(step: PublishStep, slug: &str) -> (r: Vec<String>)
    ensures
        string_views(r@) == step_args(step, slug@),
{
    let mut v: Vec<String> = Vec::new();
    match step {
        PublishStep::Add => {
            v.push("add".to_owned());
            v.push(published_file(slug));
        },
        PublishStep::Commit => {
            v.push("commit".to_owned());
            v.push("-m".to_owned());
            v.push(publish_commit_message(slug));
        },
        PublishStep::Push => {
            v.push("push".to_owned());
            v.push("origin".to_owned());
            v.push("main".to_owned());
        },
    }
    assert(string_views(v@) =~= step_args(step, slug@));
    v
}

fn run_step(step: PublishStep, slug: &str) -> (a: PublishAction)
    ensures
        a@ == PublishModel::Run(step, step_args(step, slug@)),
{
    PublishAction::Run { step, args: step_arguments(step, slug) }
}

fn not_run_error(io_error: &String) -> (e: AppError)
    ensures
        e matches AppError::Git(m) && m@ == not_run_text(io_error@),
{
    let mut v = chars_of("无法执行 git: ");
    push_str(&mut v, io_error.as_str());
    AppError::Git(string_of(v.as_slice()))
}

/// Starts publishing `slug` to the website at `website_path` (whether that
/// is a directory is `root_is_dir`): the first git command, or the error.
pub fn publish_to_website(website_path: &str, root_is_dir: bool, slug: &str) -> (a: PublishAction)
    ensures
        a@ == publish_start(website_path@, root_is_dir, slug@),
{
    if !root_is_dir {
        return PublishAction::Done(Err(missing_website_error(website_path)));
    }
    run_step(PublishStep::Add, slug)
}

/// The next thing to do once step `step` of publishing `slug` had
/// `outcome`.
pub fn publish_next(step: PublishStep, slug: &str, outcome: &GitOutcome) -> (a: PublishAction)
    ensures
        a@ == publish_after(step, slug@, outcome@),
{
    match step {
        PublishStep::Add => match outcome {
            GitOutcome::Succeeded => run_step(PublishStep::Commit, slug),
            GitOutcome::NotRun(e) => PublishAction::Done(Err(not_run_error(e))),
            GitOutcome::Failed { stdout: _, stderr } => {
                let args = step_arguments(PublishStep::Add, slug);
                PublishAction::Done(Err(AppError::Git(git_failure_message(&args, stderr.as_str()))))
            },
        },
        PublishStep::Commit => {
            let detail = match outcome {
                GitOutcome::Succeeded => {
                    return run_step(PublishStep::Push, slug);
                },
                GitOutcome::NotRun(e) => {
                    let mut v = chars_of("无法执行 git: ");
                    push_str(&mut v, e.as_str());
                    string_of(v.as_slice())
                },
                GitOutcome::Failed { stdout, stderr } => combine_git_output(
                    stdout.as_str(),
                    stderr.as_str(),
                ),
            };
            let mut m = chars_of("Git 操作失败: ");
            push_str(&mut m, detail.as_str());
            if contains_str(m.as_slice(), "nothing to commit") {
                run_step(PublishStep::Push, slug)
            } else {
                PublishAction::Done(Err(AppError::Git(string_of(m.as_slice()))))
            }
        },
        PublishStep::Push => match outcome {
            GitOutcome::Succeeded => PublishAction::Done(Ok(published_url(slug))),
            GitOutcome::NotRun(e) => PublishAction::Done(Err(not_run_error(e))),
            GitOutcome::Failed { stdout: _, stderr } => {
                let args = step_arguments(PublishStep::Push, slug);
                PublishAction::Done(Err(AppError::Git(git_failure_message(&args, stderr.as_str()))))
            },
        },
    }
}

/// Publishing gives the URL only when `git push` succeeded.
pub proof fn law_published_only_after_push(step: PublishStep, slug: Seq<char>, outcome: GitOutcomeModel)
    ensures
        publish_after(step, slug, outcome) is Published ==> step == PublishStep::Push
            && outcome is Succeeded,
{
}

/// When every git command succeeds, publishing runs `git add`, `git commit`
/// and `git push` in this order and gives the article's URL.
pub proof fn law_publish_happy_path(website_path: Seq<char>, slug: Seq<char>)
    ensures
        publish_start(website_path, true, slug) == PublishModel::Run(
            PublishStep::Add,
            step_args(PublishStep::Add, slug),
        ),
        publish_after(PublishStep::Add, slug, GitOutcomeModel::Succeeded) == PublishModel::Run(
            PublishStep::Commit,
            step_args(PublishStep::Commit, slug),
        ),
        publish_after(PublishStep::Commit, slug, GitOutcomeModel::Succeeded) == PublishModel::Run(
            PublishStep::Push,
            step_args(PublishStep::Push, slug),
        ),
        publish_after(PublishStep::Push, slug, GitOutcomeModel::Succeeded)
            == PublishModel::Published("https://khlilo.xyz/signal/"@ + slug),
{
}


/// A summary is at most `max_chars` characters plus `...`; a first body
/// line that fits is kept whole.
pub proof fn law_summary_is_short(markdown: Seq<char>, max_chars: nat)
    ensures
        summary_of(markdown, max_chars).len() <= max_chars + 3,
        first_body_line(lines(markdown)) matches Some(t) ==> (t.len() <= max_chars ==> summary_of(
            markdown,
            max_chars,
        ) == t),
{
    reveal_strlit("...");
    match first_body_line(lines(markdown)) {
        Some(t) => {
            if t.len() > max_chars {
                let cut = t.take(max_chars as int);
                lemma_last_index_upto(cut, seq![' '], cut.len() - 1);
            }
        },
        None => {},
    }
}

/// Whether a line of Markdown is body text: neither blank nor a heading.
pub open spec fn is_body_line(l: Seq<char>) -> bool {
    trim(l).len() > 0 && !starts_with(trim(l), "#"@)
}

proof fn lemma_first_body_line_at(ls: Seq<Seq<char>>, k: int)
    requires
        0 <= k < ls.len(),
        is_body_line(ls[k]),
        forall|j: int| 0 <= j < k ==> !is_body_line(#[trigger] ls[j]),
    ensures
        first_body_line(ls) == Some(trim(ls[k])),
    decreases k,
{
    if k > 0 {
        assert(!is_body_line(ls[0]));
        let rest = ls.drop_first();
        assert forall|j: int| 0 <= j < k - 1 implies !is_body_line(#[trigger] rest[j]) by {
            assert(rest[j] == ls[j + 1]);
        }
        assert(rest[k - 1] == ls[k]);
        lemma_first_body_line_at(rest, k - 1);
    }
}

proof fn lemma_no_body_line(ls: Seq<Seq<char>>)
    requires
        forall|j: int| 0 <= j < ls.len() ==> !is_body_line(#[trigger] ls[j]),
    ensures
        first_body_line(ls) is None,
    decreases ls.len(),
{
    if ls.len() > 0 {
        assert(!is_body_line(ls[0]));
        let rest = ls.drop_first();
        assert forall|j: int| 0 <= j < rest.len() implies !is_body_line(#[trigger] rest[j]) by {
            assert(rest[j] == ls[j + 1]);
        }
        lemma_no_body_line(rest);
    }
}

/// The summary is taken from the earliest body line (every line before it
/// is blank or a heading): that line, trimmed, when it fits in `max_chars`
/// characters; otherwise a prefix of it of at most `max_chars` characters
/// followed by `...`.  A text with no body line has an empty summary.
pub proof fn law_summary_from_first_body_line(markdown: Seq<char>, max_chars: nat)
    ensures
        forall|k: int|
            #![trigger lines(markdown)[k]]
            0 <= k < lines(markdown).len() && is_body_line(lines(markdown)[k]) && (forall|j: int|
                0 <= j < k ==> !is_body_line(#[trigger] lines(markdown)[j])) ==> ({
                let t = trim(lines(markdown)[k]);
                let r = summary_of(markdown, max_chars);
                &&& t.len() <= max_chars ==> r == t
                &&& t.len() > max_chars ==> r.len() >= 3 && r.len() - 3 <= max_chars && ends_with(
                    r,
                    "..."@,
                ) && starts_with(t, r.take(r.len() - 3))
            }),
        (forall|j: int|
            0 <= j < lines(markdown).len() ==> !is_body_line(#[trigger] lines(markdown)[j]))
            ==> summary_of(markdown, max_chars).len() == 0,
{
    reveal_strlit("...");
    let ls = lines(markdown);
    assert forall|k: int|
        #![trigger ls[k]]
        0 <= k < ls.len() && is_body_line(ls[k]) && (forall|j: int|
            0 <= j < k ==> !is_body_line(#[trigger] ls[j])) implies ({
        let t = trim(ls[k]);
        let r = summary_of(markdown, max_chars);
        &&& t.len() <= max_chars ==> r == t
        &&& t.len() > max_chars ==> r.len() >= 3 && r.len() - 3 <= max_chars && ends_with(
            r,
            "..."@,
        ) && starts_with(t, r.take(r.len() - 3))
    }) by {
        lemma_first_body_line_at(ls, k);
        let t = trim(ls[k]);
        let r = summary_of(markdown, max_chars);
        if t.len() > max_chars {
            let cut = t.take(max_chars as int);
            lemma_last_index_upto(cut, seq![' '], cut.len() - 1);
            match last_index(cut, seq![' ']) {
                Some(sp) => {
                    assert(r == cut.take(sp) + "..."@);
                    assert(r.take(r.len() - 3) =~= t.take(sp));
                    assert(r.skip(r.len() - 3) =~= "..."@);
                },
                None => {
                    assert(r == cut + "..."@);
                    assert(r.take(r.len() - 3) =~= t.take(max_chars as int));
                    assert(r.skip(r.len() - 3) =~= "..."@);
                },
            }
        }
    }
    if forall|j: int| 0 <= j < ls.len() ==> !is_body_line(#[trigger] ls[j]) {
        lemma_no_body_line(ls);
    }
}

/// Escaping, one character at a time: a `"` becomes `\"`, any other
/// character stays; text without `"` is unchanged.
pub proof fn law_escape_quotes(c: char, s: Seq<char>)
    ensures
        escape_quotes(Seq::empty()) == Seq::<char>::empty(),
        escape_quotes(seq![c] + s) == if c == '"' {
            seq!['\\', '"'] + escape_quotes(s)
        } else {
            seq![c] + escape_quotes(s)
        },
        !contains_seq(s, seq!['"']) ==> escape_quotes(s) == s,
{
    let q = seq!['"'];
    let t = seq![c] + s;
    lemma_first_index(Seq::<char>::empty(), q);
    lemma_first_index(t, q);
    lemma_first_index(s, q);
    if c == '"' {
        assert(t.subrange(0, 1) =~= q);
        assert(occurs_at(t, q, 0));
        assert(t.take(0) =~= Seq::<char>::empty());
        assert(t.skip(1) =~= s);
    } else {
        assert(!occurs_at(t, q, 0)) by {
            if occurs_at(t, q, 0) {
                assert(t.subrange(0, 1)[0] == t[0]);
            }
        }
        assert forall|j: int| 0 <= j < s.len() implies occurs_at(t, q, j + 1) == occurs_at(s, q, j) by {
            assert(t.subrange(j + 1, j + 2) =~= s.subrange(j, j + 1));
        }
        match first_index(s, q) {
            Some(i) => {
                assert(occurs_at(t, q, i + 1));
                match first_index(t, q) {
                    Some(k) => {
                        if k < i + 1 {
                            assert(k >= 1);
                            assert(occurs_at(s, q, k - 1));
                        }
                        if k > i + 1 {
                            assert(!occurs_at(t, q, i + 1));
                        }
                        assert(k == i + 1);
                    },
                    None => {
                        assert(contains_seq(t, q));
                    },
                }
                assert(t.take(i + 1) =~= seq![c] + s.take(i));
                assert(t.skip(i + 2) =~= s.skip(i + 1));
            },
            None => {
                if let Some(k) = first_index(t, q) {
                    assert(k >= 1);
                    assert(occurs_at(s, q, k - 1));
                }
            },
        }
    }
}

/// The draft opens with the front matter and closes with the body after a
/// blank line; a title and a date without `"` stand in it verbatim.
pub proof fn law_mdx_layout(title: Seq<char>, date: Seq<char>, body: Seq<char>)
    ensures
        starts_with(mdx_text(title, date, body), "---\ntitle: \""@),
        ends_with(mdx_text(title, date, body), "\"\n---\n\n"@ + body),
        !contains_seq(title, seq!['"']) ==> starts_with(
            mdx_text(title, date, body),
            "---\ntitle: \""@ + title + "\"\ndate: \""@ + date + "\"\nsummary: \""@,
        ),
{
    let m = mdx_text(title, date, body);
    let head = "---\ntitle: \""@;
    let tail = "\"\n---\n\n"@ + body;
    assert(m.take(head.len() as int) =~= head);
    assert(m.skip(m.len() - tail.len()) =~= tail);
    if !contains_seq(title, seq!['"']) {
        law_escape_quotes(' ', title);
        let pre = "---\ntitle: \""@ + title + "\"\ndate: \""@ + date + "\"\nsummary: \""@;
        assert(m.take(pre.len() as int) =~= pre);
    }
}

} // verus!
