//! Cognitive Writer: a conversational writing agent's logic, verified.
//!
//! The library holds what the agent decides and computes: parsing user
//! intents, the session workflow (outline → full text → drafts → publish),
//! prompts, slugs and versioned file names, the `AI_EDIT` marker parser,
//! the clipboard's `CF_HTML` format, MDX drafts and the git publishing
//! sequence, the style library, the command line, and the chat-completions
//! exchange with its retry policy.  Reading and writing files, the network,
//! processes and the terminal live in the application around it.

pub mod cli;
pub mod clipboard;
pub mod console;
pub mod error;
pub mod files;
pub mod intent;
pub mod learn;
pub mod llm;
pub mod markdown;
pub mod prompts;
pub mod refine;
pub mod session;
pub mod slug;
pub mod styles;
pub mod text;
pub mod website;
