# router_sync

Keeps the model lists of editor configurations in step with an
OpenAI-compatible router (by default `https://ai.bocahdigital.com`). The
router is asked for its opencode configuration; its models are then written
into opencode's `opencode.json`, Zed's `settings.json`, or the `env` of the
settings of Anthropic's command-line assistant. Without `--apply` a run only
shows what would change; with it, the file is backed up to
`<name>.bak.<timestamp>` before it is rewritten.

Layout:

- `src/` is the verified library:
  - `text.rs`: characters, whitespace, the text order, trimming, decimal numbers;
  - `jsonc.rs`: removing comments and trailing commas from JSON-with-comments;
  - `json.rs`: JSON documents, their meaning as maps and sequences, reading,
    comparing and writing members;
  - `names.rs`: sorted sets of model names;
  - `sync.rs`: what a synchronisation adds, removes, updates and keeps;
  - `opencode.rs`, `zed.rs`, `anthropic.rs`: the three configurations;
  - `cli.rs`: the command line, the API key, the router request, picking a
    model by number, backup names.
- `app/` is the program: arguments, environment, prompts, the HTTP request,
  reading and writing files, and the conversion between `serde_json::Value`
  and the library's documents.
- `tests/` runs the library on concrete inputs.

Flags: `--api <KEY>`, `--baseurl <URL>`, `--config <PATH>`, `--apply`, and
`--zed` or `--anthropic` to choose the configuration (opencode otherwise).
Other arguments are ignored, except that with `--apply` an option this
program does not know (`--...`) is refused rather than ignored, so that a
write never goes to a file the user did not mean. The key comes from `--api`, then
`ROUTER_BOCAH_API_KEY`, then a prompt.
The assistant's settings have no default path here: pass `--config`.
