//! The conversational writing session: what the REPL remembers between
//! turns, and the decisions it takes on each parsed intent.
//!
//! The REPL loop itself (reading lines, calling the language model, reading
//! and writing files) lives outside the library; it hands each intent to
//! [`Session::dispatch`], performs the returned [`Action`], and reports the
//! results back through the `*_ready` / `*_revised` methods.

use vstd::prelude::*;
use crate::error::{debug_quoted, debug_text, AppError};
use crate::intent::{opt_view, Intent, IntentModel, SessionState};
use crate::slug::{extract_idea_slug, idea_slug};
use crate::text::{chars_of, is_blank, push_str, string_of, trim};

verus! {

broadcast use vstd::string::group_string_axioms;

// ── The session ──────────────────────────────────────────────────────

/// The article in progress and the step of the workflow it is at.
pub struct Session {
    pub state: SessionState,
    pub current_topic: Option<String>,
    pub current_outline: Option<String>,
    pub current_fulltext: Option<String>,
    pub current_style_name: Option<String>,
    pub current_style_content: Option<String>,
    pub current_slug: Option<String>,
}

/// The mathematical value of a [`Session`].
pub struct SessionModel {
    pub state: SessionState,
    pub topic: Option<Seq<char>>,
    pub outline: Option<Seq<char>>,
    pub fulltext: Option<Seq<char>>,
    pub style_name: Option<Seq<char>>,
    pub style_content: Option<Seq<char>>,
    pub slug: Option<Seq<char>>,
}

impl View for Session {
    type V = SessionModel;

    open spec fn view(&self) -> SessionModel {
        SessionModel {
            state: self.state,
            topic: opt_view(self.current_topic),
            outline: opt_view(self.current_outline),
            fulltext: opt_view(self.current_fulltext),
            style_name: opt_view(self.current_style_name),
            style_content: opt_view(self.current_style_content),
            slug: opt_view(self.current_slug),
        }
    }
}

/// A fresh session: idle, with no article in progress.
pub open spec fn idle_session() -> SessionModel {
    SessionModel {
        state: SessionState::Idle,
        topic: None,
        outline: None,
        fulltext: None,
        style_name: None,
        style_content: None,
        slug: None,
    }
}

// ── What the loop has to do ──────────────────────────────────────────

/// The work that follows an intent; the REPL loop performs it.
pub enum Action {
    /// Match the style, then generate an outline for the topic.
    Generate { topic: String, style_name: String },
    /// Learn a writing style from the URL.
    Learn { url: String },
    /// Print the style library.
    ListStyles,
    /// Print one style.
    ShowStyle { name: String },
    /// Delete one style (after asking).
    DeleteStyle { name: String },
    /// Rewrite a file as a whole.
    UpdateFile { path: String, instruction: String },
    /// Redraw a file according to an instruction.
    RefineFile { path: String, instruction: String },
    /// The session was cancelled and reset.
    Cancelled,
    /// The input was not understood.
    NotUnderstood,
    /// Render the full text from the outline.
    RenderFulltext { style: String, outline: String, topic: String },
    /// Revise the outline.
    ModifyOutline { outline: String, topic: String, instruction: String },
    /// Put the article on the clipboard and write the website draft.
    DraftPublish { fulltext: String, slug: String },
    /// Redraw part of the full text.
    RefineSection { fulltext: String, instruction: String },
    /// Match another style and rewrite the full text in it.
    ChangeStyle { fulltext: String, style_name: String },
    /// Publish to the website and remind of WeChat; the session was reset.
    Publish { slug: String },
    /// Publish to the website only; the session was reset.
    PublishWebsiteOnly { slug: String },
    /// Keep the drafts; the session was reset.
    Hold,
    /// The intent cannot be carried out.
    Fail(AppError),
}

/// The error of a failed dispatch, as plain values.
pub enum FailureModel {
    Missing(Seq<char>),
    InvalidState { state: Seq<char>, intent: Seq<char> },
    Other,
}

/// The mathematical value of an [`Action`].
pub enum ActionModel {
    Generate { topic: Seq<char>, style_name: Seq<char> },
    Learn { url: Seq<char> },
    ListStyles,
    ShowStyle { name: Seq<char> },
    DeleteStyle { name: Seq<char> },
    UpdateFile { path: Seq<char>, instruction: Seq<char> },
    RefineFile { path: Seq<char>, instruction: Seq<char> },
    Cancelled,
    NotUnderstood,
    RenderFulltext { style: Seq<char>, outline: Seq<char>, topic: Seq<char> },
    ModifyOutline { outline: Seq<char>, topic: Seq<char>, instruction: Seq<char> },
    DraftPublish { fulltext: Seq<char>, slug: Seq<char> },
    RefineSection { fulltext: Seq<char>, instruction: Seq<char> },
    ChangeStyle { fulltext: Seq<char>, style_name: Seq<char> },
    Publish { slug: Seq<char> },
    PublishWebsiteOnly { slug: Seq<char> },
    Hold,
    Fail(FailureModel),
}

impl View for Action {
    type V = ActionModel;

    open spec fn view(&self) -> ActionModel {
        match self {
            Action::Generate { topic, style_name } => ActionModel::Generate {
                topic: topic@,
                style_name: style_name@,
            },
            Action::Learn { url } => ActionModel::Learn { url: url@ },
            Action::ListStyles => ActionModel::ListStyles,
            Action::ShowStyle { name } => ActionModel::ShowStyle { name: name@ },
            Action::DeleteStyle { name } => ActionModel::DeleteStyle { name: name@ },
            Action::UpdateFile { path, instruction } => ActionModel::UpdateFile {
                path: path@,
                instruction: instruction@,
            },
            Action::RefineFile { path, instruction } => ActionModel::RefineFile {
                path: path@,
                instruction: instruction@,
            },
            Action::Cancelled => ActionModel::Cancelled,
            Action::NotUnderstood => ActionModel::NotUnderstood,
            Action::RenderFulltext { style, outline, topic } => ActionModel::RenderFulltext {
                style: style@,
                outline: outline@,
                topic: topic@,
            },
            Action::ModifyOutline { outline, topic, instruction } => ActionModel::ModifyOutline {
                outline: outline@,
                topic: topic@,
                instruction: instruction@,
            },
            Action::DraftPublish { fulltext, slug } => ActionModel::DraftPublish {
                fulltext: fulltext@,
                slug: slug@,
            },
            Action::RefineSection { fulltext, instruction } => ActionModel::RefineSection {
                fulltext: fulltext@,
                instruction: instruction@,
            },
            Action::ChangeStyle { fulltext, style_name } => ActionModel::ChangeStyle {
                fulltext: fulltext@,
                style_name: style_name@,
            },
            Action::Publish { slug } => ActionModel::Publish { slug: slug@ },
            Action::PublishWebsiteOnly { slug } => ActionModel::PublishWebsiteOnly { slug: slug@ },
            Action::Hold => ActionModel::Hold,
            Action::Fail(e) => ActionModel::Fail(
                match e {
                    AppError::Intent(m) => FailureModel::Missing(m@),
                    AppError::InvalidState { state, intent } => FailureModel::InvalidState {
                        state: state@,
                        intent: intent@,
                    },
                    _ => FailureModel::Other,
                },
            ),
        }
    }
}

// ── Debug notation ───────────────────────────────────────────────────

/// `format!("{:?}", state)`.
pub open spec fn state_debug(state: SessionState) -> Seq<char> {
    match state {
        SessionState::Idle => "Idle"@,
        SessionState::WaitingForOutline => "WaitingForOutline"@,
        SessionState::WaitingForFulltext => "WaitingForFulltext"@,
        SessionState::WaitingForPublish => "WaitingForPublish"@,
    }
}

/// `format!("{:?}", intent)` (the derived `Debug`).
pub open spec fn intent_debug(i: IntentModel) -> Seq<char> {
    match i {
        IntentModel::Generate { topic, style_name } => "Generate { topic: "@ + debug_quoted(topic)
            + ", style_name: "@ + debug_quoted(style_name) + " }"@,
        IntentModel::Learn { url } => "Learn { url: "@ + debug_quoted(url) + " }"@,
        IntentModel::ListStyles => "ListStyles"@,
        IntentModel::ShowStyle { name } => "ShowStyle { name: "@ + debug_quoted(name) + " }"@,
        IntentModel::DeleteStyle { name } => "DeleteStyle { name: "@ + debug_quoted(name) + " }"@,
        IntentModel::RefineFile { path, instruction } => "RefineFile { path: "@ + debug_quoted(path)
            + ", instruction: "@ + debug_quoted(instruction) + " }"@,
        IntentModel::UpdateFile { path, instruction } => "UpdateFile { path: "@ + debug_quoted(path)
            + ", instruction: "@ + debug_quoted(instruction) + " }"@,
        IntentModel::Confirm => "Confirm"@,
        IntentModel::Cancel => "Cancel"@,
        IntentModel::ModifyOutline { instruction } => "ModifyOutline { instruction: "@
            + debug_quoted(instruction) + " }"@,
        IntentModel::ModifySection { instruction } => "ModifySection { instruction: "@
            + debug_quoted(instruction) + " }"@,
        IntentModel::ChangeStyle { style_name } => "ChangeStyle { style_name: "@ + debug_quoted(
            style_name,
        ) + " }"@,
        IntentModel::Publish => "Publish"@,
        IntentModel::PublishWebsiteOnly => "PublishWebsiteOnly"@,
        IntentModel::Hold => "Hold"@,
        IntentModel::Unknown => "Unknown"@,
    }
}

/// The debug notation of a session state.
pub fn state_debug_text(state: SessionState) -> (r: String)
    ensures
        r@ == state_debug(state),
{
    match state {
        SessionState::Idle => "Idle".to_owned(),
        SessionState::WaitingForOutline => "WaitingForOutline".to_owned(),
        SessionState::WaitingForFulltext => "WaitingForFulltext".to_owned(),
        SessionState::WaitingForPublish => "WaitingForPublish".to_owned(),
    }
}

/// Appends `head` and the quoted `value`.
fn push_field(v: &mut Vec<char>, head: &str, value: &String)
    ensures
        final(v)@ == old(v)@ + head@ + debug_quoted(value@),
{
    push_str(v, head);
    let q = debug_text(value.as_str());
    push_str(v, q.as_str());
}

/// The debug notation of an intent.
pub fn intent_debug_text(i: &Intent) -> (r: String)
    ensures
        r@ == intent_debug(i@),
{
    let mut v: Vec<char> = Vec::new();
    match i {
        Intent::Generate { topic, style_name } => {
            push_field(&mut v, "Generate { topic: ", topic);
            push_field(&mut v, ", style_name: ", style_name);
            push_str(&mut v, " }");
        },
        Intent::Learn { url } => {
            push_field(&mut v, "Learn { url: ", url);
            push_str(&mut v, " }");
        },
        Intent::ListStyles => push_str(&mut v, "ListStyles"),
        Intent::ShowStyle { name } => {
            push_field(&mut v, "ShowStyle { name: ", name);
            push_str(&mut v, " }");
        },
        Intent::DeleteStyle { name } => {
            push_field(&mut v, "DeleteStyle { name: ", name);
            push_str(&mut v, " }");
        },
        Intent::RefineFile { path, instruction } => {
            push_field(&mut v, "RefineFile { path: ", path);
            push_field(&mut v, ", instruction: ", instruction);
            push_str(&mut v, " }");
        },
        Intent::UpdateFile { path, instruction } => {
            push_field(&mut v, "UpdateFile { path: ", path);
            push_field(&mut v, ", instruction: ", instruction);
            push_str(&mut v, " }");
        },
        Intent::Confirm => push_str(&mut v, "Confirm"),
        Intent::Cancel => push_str(&mut v, "Cancel"),
        Intent::ModifyOutline { instruction } => {
            push_field(&mut v, "ModifyOutline { instruction: ", instruction);
            push_str(&mut v, " }");
        },
        Intent::ModifySection { instruction } => {
            push_field(&mut v, "ModifySection { instruction: ", instruction);
            push_str(&mut v, " }");
        },
        Intent::ChangeStyle { style_name } => {
            push_field(&mut v, "ChangeStyle { style_name: ", style_name);
            push_str(&mut v, " }");
        },
        Intent::Publish => push_str(&mut v, "Publish"),
        Intent::PublishWebsiteOnly => push_str(&mut v, "PublishWebsiteOnly"),
        Intent::Hold => push_str(&mut v, "Hold"),
        Intent::Unknown => push_str(&mut v, "Unknown"),
    }
    string_of(v.as_slice())
}


// ── Dispatch ─────────────────────────────────────────────────────────

/// A dispatch that fails because the session lacks `what`.
pub open spec fn missing(what: Seq<char>) -> ActionModel {
    ActionModel::Fail(FailureModel::Missing(what))
}

/// `s` moved to state `state`.
pub open spec fn with_state(s: SessionModel, state: SessionState) -> SessionModel {
    SessionModel {
        state,
        topic: s.topic,
        outline: s.outline,
        fulltext: s.fulltext,
        style_name: s.style_name,
        style_content: s.style_content,
        slug: s.slug,
    }
}

/// Confirming the outline: render the full text from style, outline and topic.
pub open spec fn render_action(s: SessionModel) -> ActionModel {
    if s.style_content is None {
        missing("风格内容丢失"@)
    } else if s.outline is None {
        missing("大纲内容丢失"@)
    } else if s.topic is None {
        missing("创作主题丢失"@)
    } else {
        ActionModel::RenderFulltext {
            style: s.style_content->0,
            outline: s.outline->0,
            topic: s.topic->0,
        }
    }
}

/// Revising the outline by `instruction`.
pub open spec fn modify_outline_action(s: SessionModel, instruction: Seq<char>) -> ActionModel {
    if s.outline is None {
        missing("大纲内容丢失"@)
    } else if s.topic is None {
        missing("创作主题丢失"@)
    } else {
        ActionModel::ModifyOutline { outline: s.outline->0, topic: s.topic->0, instruction }
    }
}

/// Confirming the full text: the drafts are written and publishing is asked for.
pub open spec fn draft_step(s: SessionModel) -> (SessionModel, ActionModel) {
    if s.fulltext is None {
        (s, missing("全文内容丢失"@))
    } else if s.slug is None {
        (s, missing("slug 丢失"@))
    } else {
        (
            with_state(s, SessionState::WaitingForPublish),
            ActionModel::DraftPublish { fulltext: s.fulltext->0, slug: s.slug->0 },
        )
    }
}

/// Publishing (to the website only, or also to WeChat); the workflow ends.
pub open spec fn publish_step(s: SessionModel, website_only: bool) -> (SessionModel, ActionModel) {
    if s.slug is None {
        (s, missing("slug 丢失，无法发布"@))
    } else if website_only {
        (idle_session(), ActionModel::PublishWebsiteOnly { slug: s.slug->0 })
    } else {
        (idle_session(), ActionModel::Publish { slug: s.slug->0 })
    }
}

/// The rejection of intent `i` in the state of `s`.
pub open spec fn rejection(s: SessionModel, i: IntentModel) -> (SessionModel, ActionModel) {
    (
        s,
        ActionModel::Fail(
            FailureModel::InvalidState { state: state_debug(s.state), intent: intent_debug(i) },
        ),
    )
}

/// The session after intent `i`, and the work it asks for.
pub open spec fn dispatch_model(s: SessionModel, i: IntentModel) -> (SessionModel, ActionModel) {
    let idle = s.state == SessionState::Idle;
    match i {
        IntentModel::Generate { topic, style_name } => if idle {
            (s, ActionModel::Generate { topic, style_name })
        } else {
            rejection(s, i)
        },
        IntentModel::Learn { url } => if idle {
            (s, ActionModel::Learn { url })
        } else {
            rejection(s, i)
        },
        IntentModel::ListStyles => if idle {
            (s, ActionModel::ListStyles)
        } else {
            rejection(s, i)
        },
        IntentModel::ShowStyle { name } => if idle {
            (s, ActionModel::ShowStyle { name })
        } else {
            rejection(s, i)
        },
        IntentModel::DeleteStyle { name } => if idle {
            (s, ActionModel::DeleteStyle { name })
        } else {
            rejection(s, i)
        },
        IntentModel::UpdateFile { path, instruction } => if idle {
            (s, ActionModel::UpdateFile { path, instruction })
        } else {
            rejection(s, i)
        },
        IntentModel::RefineFile { path, instruction } => if idle {
            (s, ActionModel::RefineFile { path, instruction })
        } else {
            rejection(s, i)
        },
        IntentModel::Cancel => (idle_session(), ActionModel::Cancelled),
        IntentModel::Unknown => (s, ActionModel::NotUnderstood),
        IntentModel::Confirm => match s.state {
            SessionState::WaitingForOutline => (s, render_action(s)),
            SessionState::WaitingForFulltext => draft_step(s),
            _ => rejection(s, i),
        },
        IntentModel::ModifyOutline { instruction } => if s.state
            == SessionState::WaitingForOutline {
            (s, modify_outline_action(s, instruction))
        } else {
            rejection(s, i)
        },
        IntentModel::ModifySection { instruction } => if s.state
            == SessionState::WaitingForFulltext {
            (
                s,
                if s.fulltext is None {
                    missing("全文内容丢失"@)
                } else {
                    ActionModel::RefineSection { fulltext: s.fulltext->0, instruction }
                },
            )
        } else {
            rejection(s, i)
        },
        IntentModel::ChangeStyle { style_name } => if s.state
            == SessionState::WaitingForFulltext {
            (
                s,
                if s.fulltext is None {
                    missing("全文内容丢失"@)
                } else {
                    ActionModel::ChangeStyle { fulltext: s.fulltext->0, style_name }
                },
            )
        } else {
            rejection(s, i)
        },
        IntentModel::Publish => if s.state == SessionState::WaitingForPublish {
            publish_step(s, false)
        } else {
            rejection(s, i)
        },
        IntentModel::PublishWebsiteOnly => if s.state == SessionState::WaitingForPublish {
            publish_step(s, true)
        } else {
            rejection(s, i)
        },
        IntentModel::Hold => if s.state == SessionState::WaitingForPublish {
            (idle_session(), ActionModel::Hold)
        } else {
            rejection(s, i)
        },
    }
}

/// A failure for missing session data.
fn missing_error(what: &str) -> (a: Action)
    ensures
        a@ == missing(what@),
{
    Action::Fail(AppError::Intent(what.to_owned()))
}

impl Session {
    /// A fresh, idle session.
    pub fn new() -> (s: Session)
        ensures
            s@ == idle_session(),
    {
        Session {
            state: SessionState::Idle,
            current_topic: None,
            current_outline: None,
            current_fulltext: None,
            current_style_name: None,
            current_style_content: None,
            current_slug: None,
        }
    }

    /// The current state.
    pub fn current_state(&self) -> (r: SessionState)
        ensures
            r == self.state,
    {
        self.state
    }

    /// Back to idle, forgetting the article in progress.
    pub fn reset_state(&mut self)
        ensures
            final(self)@ == idle_session(),
    {
        self.state = SessionState::Idle;
        self.current_topic = None;
        self.current_outline = None;
        self.current_fulltext = None;
        self.current_style_name = None;
        self.current_style_content = None;
        self.current_slug = None;
    }

    /// The rejection of `intent` in the current state.
    fn reject(&self, intent: &Intent) -> (a: Action)
        ensures
            a@ == rejection(self@, intent@).1,
    {
        Action::Fail(
            AppError::InvalidState {
                state: state_debug_text(self.state),
                intent: intent_debug_text(intent),
            },
        )
    }

    /// Takes the decision for one parsed intent: updates the session where
    /// the outcome does not depend on outside work, and returns that work.
    pub fn dispatch(&mut self, intent: Intent) -> (a: Action)
        ensures
            (final(self)@, a@) == dispatch_model(old(self)@, intent@),
    {
        let idle = self.state == SessionState::Idle;
        match &intent {
            Intent::Generate { topic, style_name } => {
                if idle {
                    Action::Generate { topic: topic.clone(), style_name: style_name.clone() }
                } else {
                    self.reject(&intent)
                }
            },
            Intent::Learn { url } => {
                if idle {
                    Action::Learn { url: url.clone() }
                } else {
                    self.reject(&intent)
                }
            },
            Intent::ListStyles => {
                if idle {
                    Action::ListStyles
                } else {
                    self.reject(&intent)
                }
            },
            Intent::ShowStyle { name } => {
                if idle {
                    Action::ShowStyle { name: name.clone() }
                } else {
                    self.reject(&intent)
                }
            },
            Intent::DeleteStyle { name } => {
                if idle {
                    Action::DeleteStyle { name: name.clone() }
                } else {
                    self.reject(&intent)
                }
            },
            Intent::UpdateFile { path, instruction } => {
                if idle {
                    Action::UpdateFile { path: path.clone(), instruction: instruction.clone() }
                } else {
                    self.reject(&intent)
                }
            },
            Intent::RefineFile { path, instruction } => {
                if idle {
                    Action::RefineFile { path: path.clone(), instruction: instruction.clone() }
                } else {
                    self.reject(&intent)
                }
            },
            Intent::Cancel => {
                self.reset_state();
                Action::Cancelled
            },
            Intent::Unknown => Action::NotUnderstood,
            Intent::Confirm => {
                match self.state {
                    SessionState::WaitingForOutline => self.render_fulltext_action(),
                    SessionState::WaitingForFulltext => self.draft_publish_step(),
                    _ => self.reject(&intent),
                }
            },
            Intent::ModifyOutline { instruction } => {
                if self.state == SessionState::WaitingForOutline {
                    self.modify_outline_action(instruction)
                } else {
                    self.reject(&intent)
                }
            },
            Intent::ModifySection { instruction } => {
                if self.state == SessionState::WaitingForFulltext {
                    match &self.current_fulltext {
                        None => missing_error("全文内容丢失"),
                        Some(f) => Action::RefineSection {
                            fulltext: f.clone(),
                            instruction: instruction.clone(),
                        },
                    }
                } else {
                    self.reject(&intent)
                }
            },
            Intent::ChangeStyle { style_name } => {
                if self.state == SessionState::WaitingForFulltext {
                    match &self.current_fulltext {
                        None => missing_error("全文内容丢失"),
                        Some(f) => Action::ChangeStyle {
                            fulltext: f.clone(),
                            style_name: style_name.clone(),
                        },
                    }
                } else {
                    self.reject(&intent)
                }
            },
            Intent::Publish => {
                if self.state == SessionState::WaitingForPublish {
                    self.publish_step(false)
                } else {
                    self.reject(&intent)
                }
            },
            Intent::PublishWebsiteOnly => {
                if self.state == SessionState::WaitingForPublish {
                    self.publish_step(true)
                } else {
                    self.reject(&intent)
                }
            },
            Intent::Hold => {
                if self.state == SessionState::WaitingForPublish {
                    self.reset_state();
                    Action::Hold
                } else {
                    self.reject(&intent)
                }
            },
        }
    }

    fn render_fulltext_action(&self) -> (a: Action)
        ensures
            a@ == render_action(self@),
    {
        let style = match &self.current_style_content {
            None => return missing_error("风格内容丢失"),
            Some(x) => x.clone(),
        };
        let outline = match &self.current_outline {
            None => return missing_error("大纲内容丢失"),
            Some(x) => x.clone(),
        };
        let topic = match &self.current_topic {
            None => return missing_error("创作主题丢失"),
            Some(x) => x.clone(),
        };
        Action::RenderFulltext { style, outline, topic }
    }

    fn modify_outline_action(&self, instruction: &String) -> (a: Action)
        ensures
            a@ == modify_outline_action(self@, instruction@),
    {
        let outline = match &self.current_outline {
            None => return missing_error("大纲内容丢失"),
            Some(x) => x.clone(),
        };
        let topic = match &self.current_topic {
            None => return missing_error("创作主题丢失"),
            Some(x) => x.clone(),
        };
        Action::ModifyOutline { outline, topic, instruction: instruction.clone() }
    }

    fn draft_publish_step(&mut self) -> (a: Action)
        ensures
            (final(self)@, a@) == draft_step(old(self)@),
    {
        let fulltext = match &self.current_fulltext {
            None => return missing_error("全文内容丢失"),
            Some(x) => x.clone(),
        };
        let slug = match &self.current_slug {
            None => return missing_error("slug 丢失"),
            Some(x) => x.clone(),
        };
        self.state = SessionState::WaitingForPublish;
        Action::DraftPublish { fulltext, slug }
    }

    fn publish_step(&mut self, website_only: bool) -> (a: Action)
        ensures
            (final(self)@, a@) == publish_step(old(self)@, website_only),
    {
        let slug = match &self.current_slug {
            None => return missing_error("slug 丢失，无法发布"),
            Some(x) => x.clone(),
        };
        self.reset_state();
        if website_only {
            Action::PublishWebsiteOnly { slug }
        } else {
            Action::Publish { slug }
        }
    }
}


// ── Results of the outside work ──────────────────────────────────────

/// The session once the style `style_name` (text `style_content`) was matched
/// for a new article on `topic`.
pub open spec fn after_style_match(
    s: SessionModel,
    style_name: Seq<char>,
    style_content: Seq<char>,
    topic: Seq<char>,
) -> SessionModel {
    SessionModel {
        state: s.state,
        topic: Some(topic),
        outline: s.outline,
        fulltext: s.fulltext,
        style_name: Some(style_name),
        style_content: Some(style_content),
        slug: s.slug,
    }
}

/// The session once an outline was generated: it waits for feedback on it.
pub open spec fn after_outline(s: SessionModel, outline: Seq<char>) -> SessionModel {
    SessionModel {
        state: SessionState::WaitingForOutline,
        topic: s.topic,
        outline: Some(outline),
        fulltext: s.fulltext,
        style_name: s.style_name,
        style_content: s.style_content,
        slug: s.slug,
    }
}

/// The session with a revised outline (the state stays).
pub open spec fn with_outline(s: SessionModel, outline: Seq<char>) -> SessionModel {
    SessionModel {
        state: s.state,
        topic: s.topic,
        outline: Some(outline),
        fulltext: s.fulltext,
        style_name: s.style_name,
        style_content: s.style_content,
        slug: s.slug,
    }
}

/// The session holding full text `fulltext` and its slug (the state stays).
pub open spec fn with_fulltext(s: SessionModel, fulltext: Seq<char>) -> SessionModel {
    SessionModel {
        state: s.state,
        topic: s.topic,
        outline: s.outline,
        fulltext: Some(fulltext),
        style_name: s.style_name,
        style_content: s.style_content,
        slug: Some(idea_slug(fulltext)),
    }
}

/// The session once the full text was rendered: it waits for feedback on it.
pub open spec fn after_fulltext(s: SessionModel, fulltext: Seq<char>) -> SessionModel {
    with_state(with_fulltext(s, fulltext), SessionState::WaitingForFulltext)
}

/// The session after switching to style `style_name` (text `style_content`).
pub open spec fn with_style(s: SessionModel, style_name: Seq<char>, style_content: Seq<char>) -> SessionModel {
    SessionModel {
        state: s.state,
        topic: s.topic,
        outline: s.outline,
        fulltext: s.fulltext,
        style_name: Some(style_name),
        style_content: Some(style_content),
        slug: s.slug,
    }
}

impl Session {
    /// Records the matched style and the topic of a new article.
    pub fn style_matched(&mut self, style_name: String, style_content: String, topic: String)
        ensures
            final(self)@ == after_style_match(old(self)@, style_name@, style_content@, topic@),
    {
        self.current_style_name = Some(style_name);
        self.current_style_content = Some(style_content);
        self.current_topic = Some(topic);
    }

    /// Records the generated outline; the session waits for feedback on it.
    pub fn outline_ready(&mut self, outline: String)
        ensures
            final(self)@ == after_outline(old(self)@, outline@),
    {
        self.current_outline = Some(outline);
        self.state = SessionState::WaitingForOutline;
    }

    /// Records a revised outline.
    pub fn outline_revised(&mut self, outline: String)
        ensures
            final(self)@ == with_outline(old(self)@, outline@),
    {
        self.current_outline = Some(outline);
    }

    /// Records the rendered full text and its slug; the session waits for
    /// feedback on it.
    pub fn fulltext_ready(&mut self, fulltext: String)
        ensures
            final(self)@ == after_fulltext(old(self)@, fulltext@),
    {
        self.current_slug = Some(extract_idea_slug(fulltext.as_str()));
        self.current_fulltext = Some(fulltext);
        self.state = SessionState::WaitingForFulltext;
    }

    /// Records a rewritten full text and its new slug.
    pub fn fulltext_revised(&mut self, fulltext: String)
        ensures
            final(self)@ == with_fulltext(old(self)@, fulltext@),
    {
        self.current_slug = Some(extract_idea_slug(fulltext.as_str()));
        self.current_fulltext = Some(fulltext);
    }

    /// Records a switch to another style.
    pub fn style_switched(&mut self, style_name: String, style_content: String)
        ensures
            final(self)@ == with_style(old(self)@, style_name@, style_content@),
    {
        self.current_style_name = Some(style_name);
        self.current_style_content = Some(style_content);
    }
}

// ── Laws of the workflow ─────────────────────────────────────────────

/// Cancelling, in any state, ends the session: it is idle and holds no
/// article.
pub proof fn law_cancel_resets(s: SessionModel)
    ensures
        dispatch_model(s, IntentModel::Cancel) == (idle_session(), ActionModel::Cancelled),
{
}

/// A dispatch that fails leaves the session as it was.
pub proof fn law_failure_keeps_session(s: SessionModel, i: IntentModel)
    ensures
        dispatch_model(s, i).1 is Fail ==> dispatch_model(s, i).0 == s,
{
}

/// Dispatch moves only along the workflow: the state stays, returns to
/// idle, or goes from the full text to publishing on a confirmation.
pub proof fn law_dispatch_transitions(s: SessionModel, i: IntentModel)
    ensures
        ({
            let n = dispatch_model(s, i).0.state;
            ||| n == s.state
            ||| n == SessionState::Idle
            ||| (s.state == SessionState::WaitingForFulltext && i is Confirm && n
                == SessionState::WaitingForPublish)
        }),
{
}

/// Each step of the workflow is carried out on what the session holds, and
/// moves the session where the workflow says:
/// - waiting for feedback on the outline, a confirmation renders the full
///   text from the style, outline and topic held, and a revision request
///   revises the outline held; the session is kept;
/// - waiting for feedback on the full text, a section instruction redraws
///   the full text held by that instruction, and a style change rewrites it
///   in the style asked for; the session is kept;  a confirmation hands the
///   full text and slug to the drafts and waits for publishing;
/// - waiting to publish, publishing (everywhere or to the website only)
///   uses the slug held, and publishing or holding ends the session.
pub proof fn law_workflow_steps(
    s: SessionModel,
    instruction: Seq<char>,
    style_name: Seq<char>,
)
    ensures
        s.state == SessionState::WaitingForOutline ==> ((s.style_content is Some
            && s.outline is Some && s.topic is Some) ==> dispatch_model(
            s,
            IntentModel::Confirm,
        ) == (
            s,
            ActionModel::RenderFulltext {
                style: s.style_content->0,
                outline: s.outline->0,
                topic: s.topic->0,
            },
        )),
        s.state == SessionState::WaitingForOutline ==> ((s.outline is Some
            && s.topic is Some) ==> dispatch_model(
            s,
            IntentModel::ModifyOutline { instruction },
        ) == (
            s,
            ActionModel::ModifyOutline { outline: s.outline->0, topic: s.topic->0, instruction },
        )),
        s.state == SessionState::WaitingForFulltext ==> (s.fulltext is Some
            ==> dispatch_model(s, IntentModel::ModifySection { instruction }) == (
            s,
            ActionModel::RefineSection { fulltext: s.fulltext->0, instruction },
        )),
        s.state == SessionState::WaitingForFulltext ==> (s.fulltext is Some
            ==> dispatch_model(s, IntentModel::ChangeStyle { style_name }) == (
            s,
            ActionModel::ChangeStyle { fulltext: s.fulltext->0, style_name },
        )),
        s.state == SessionState::WaitingForFulltext ==> ((s.fulltext is Some
            && s.slug is Some) ==> ({
            let (n, a) = dispatch_model(s, IntentModel::Confirm);
            &&& a == ActionModel::DraftPublish { fulltext: s.fulltext->0, slug: s.slug->0 }
            &&& n.state == SessionState::WaitingForPublish
            &&& n.topic == s.topic && n.outline == s.outline && n.fulltext == s.fulltext
            &&& n.style_name == s.style_name && n.style_content == s.style_content
            &&& n.slug == s.slug
        })),
        s.state == SessionState::WaitingForPublish ==> (s.slug is Some ==> (
        dispatch_model(s, IntentModel::Publish) == (
            idle_session(),
            ActionModel::Publish { slug: s.slug->0 },
        ) && dispatch_model(s, IntentModel::PublishWebsiteOnly) == (
            idle_session(),
            ActionModel::PublishWebsiteOnly { slug: s.slug->0 },
        ))),
        s.state == SessionState::WaitingForPublish ==> dispatch_model(s, IntentModel::Hold) == (
            idle_session(),
            ActionModel::Hold,
        ),
{
}

/// When idle, each stand-alone request is handed on as it was asked, and
/// the session is kept.
pub proof fn law_idle_requests(
    s: SessionModel,
    a: Seq<char>,
    b: Seq<char>,
)
    requires
        s.state == SessionState::Idle,
    ensures
        dispatch_model(s, IntentModel::Generate { topic: a, style_name: b }) == (
            s,
            ActionModel::Generate { topic: a, style_name: b },
        ),
        dispatch_model(s, IntentModel::Learn { url: a }) == (s, ActionModel::Learn { url: a }),
        dispatch_model(s, IntentModel::ListStyles) == (s, ActionModel::ListStyles),
        dispatch_model(s, IntentModel::ShowStyle { name: a }) == (
            s,
            ActionModel::ShowStyle { name: a },
        ),
        dispatch_model(s, IntentModel::DeleteStyle { name: a }) == (
            s,
            ActionModel::DeleteStyle { name: a },
        ),
        dispatch_model(s, IntentModel::UpdateFile { path: a, instruction: b }) == (
            s,
            ActionModel::UpdateFile { path: a, instruction: b },
        ),
        dispatch_model(s, IntentModel::RefineFile { path: a, instruction: b }) == (
            s,
            ActionModel::RefineFile { path: a, instruction: b },
        ),
        dispatch_model(s, IntentModel::Unknown) == (s, ActionModel::NotUnderstood),
{
}

/// Whether `i` only makes sense inside the writing workflow.
pub open spec fn workflow_intent(i: IntentModel) -> bool {
    ||| i is Confirm
    ||| i is ModifyOutline
    ||| i is ModifySection
    ||| i is ChangeStyle
    ||| i is Publish
    ||| i is PublishWebsiteOnly
    ||| i is Hold
}

/// Whether `i` is one of the stand-alone operations.
pub open spec fn standalone_intent(i: IntentModel) -> bool {
    ||| i is Generate
    ||| i is Learn
    ||| i is ListStyles
    ||| i is ShowStyle
    ||| i is DeleteStyle
    ||| i is UpdateFile
    ||| i is RefineFile
}

/// When idle, the workflow intents are refused as not fitting the state.
pub proof fn law_idle_refuses_workflow_intents(s: SessionModel, i: IntentModel)
    requires
        s.state == SessionState::Idle,
        workflow_intent(i),
    ensures
        dispatch_model(s, i) == rejection(s, i),
{
}

/// The stand-alone operations are refused while an article is in progress.
pub proof fn law_standalone_only_when_idle(s: SessionModel, i: IntentModel)
    requires
        s.state != SessionState::Idle,
        standalone_intent(i),
    ensures
        dispatch_model(s, i) == rejection(s, i),
{
}

/// The whole workflow: generate an outline in a style, confirm it, get the
/// full text, confirm it, publish.  The drafts and the publication use the
/// slug of the full text, and publishing leaves the session idle.
pub proof fn law_workflow(
    topic: Seq<char>,
    style_query: Seq<char>,
    style_name: Seq<char>,
    style_content: Seq<char>,
    outline: Seq<char>,
    fulltext: Seq<char>,
)
    ensures
        ({
            let s0 = idle_session();
            let s1 = after_style_match(s0, style_name, style_content, topic);
            let s2 = after_outline(s1, outline);
            let s3 = after_fulltext(s2, fulltext);
            let s4 = dispatch_model(s3, IntentModel::Confirm).0;
            &&& dispatch_model(s0, IntentModel::Generate { topic, style_name: style_query }) == (
                s0,
                ActionModel::Generate { topic, style_name: style_query },
            )
            &&& dispatch_model(s2, IntentModel::Confirm) == (
                s2,
                ActionModel::RenderFulltext { style: style_content, outline, topic },
            )
            &&& dispatch_model(s3, IntentModel::Confirm).1 == ActionModel::DraftPublish {
                fulltext,
                slug: idea_slug(fulltext),
            }
            &&& s4.state == SessionState::WaitingForPublish
            &&& dispatch_model(s4, IntentModel::Publish) == (
                idle_session(),
                ActionModel::Publish { slug: idea_slug(fulltext) },
            )
        }),
{
}


/// Checks a file to redraw from the REPL: refused when blank.
pub fn check_refine_file(path: &str, content: &str) -> (r: Result<(), AppError>)
    ensures
        trim(content@).len() == 0 ==> (r matches Err(AppError::Intent(m)) && m@ == "文件内容为空: "@
            + path@),
        trim(content@).len() > 0 ==> r is Ok,
{
    if is_blank(chars_of(content).as_slice()) {
        let mut v = chars_of("文件内容为空: ");
        push_str(&mut v, path);
        Err(AppError::Intent(string_of(v.as_slice())))
    } else {
        Ok(())
    }
}

} // verus!
