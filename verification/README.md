# cognitive_writer

A conversational writing agent (Chinese-language articles for WeChat and a
personal website), split into a verified library and a thin program.

- `src/` — the library, written in Verus. Every function carries a
  contract over `Seq<char>` models of its text, and the laws of the
  workflow are public proof functions (`law_*`):
  - `intent` — natural-language intents, in two layers (stand-alone
    requests, then state-dependent answers);
  - `session`, `console` — the REPL's state machine, commands, prompt and
    `/state` report;
  - `cli` — the `cog generate|learn|refine|update` command line;
  - `prompts`, `refine`, `markdown`, `learn`, `styles`, `slug`, `files` —
    prompts, `AI_EDIT` markers, WeChat HTML, readable text of pages, the
    style library, slugs and versioned output names;
  - `clipboard` — the Windows `CF_HTML` clipboard format and the order in
    which clipboard tools are tried;
  - `website` — MDX drafts and the `git add/commit/push` publishing steps;
  - `llm` — chat-completions requests and responses, and retries;
  - `text`, `error` — the text model and the error type.
- `app/` — the program `cog`: terminal, files, HTTP (reqwest), processes,
  JSON (serde), and the loops that perform what the library decides.
- `tests/` — tests of the library.

In the REPL every free-text line is classified by the keyword rules of
`intent::parse_intent`. No language-model classification of intents
(`classify_intent`) is made: no definition of such a classifier exists to
call, so the keyword rules are the whole of it.
