# finally_a_value_bot

The decision logic of a chat bot that talks to several language-model
providers, runs user-defined hooks around each turn, drives a Cursor SDK
sidecar over a loopback MCP endpoint, and delivers long answers as uploaded
documents. The library is written in Verus: its functions carry `requires` and
`ensures` contracts, and Verus proves the code against them. Where a result
comes from an outside crate, the contract names it rather than restating the
crate.

## Layout

- `src/` — the verified library.
  - `llm`, `oai`, `gemini`, `stream`, `send_policy` and the module of the
    shared message shapes: message clean-up, request and response shapes for
    Anthropic, OpenAI-compatible and Gemini endpoints, server-sent-event
    decoding, the retry policy of a send.
  - `hook_runtime`, `hook_actions`, `hook_executor`: which hooks run for an
    event, what each action does to the run, how command and prompt hooks are
    judged, and the memory hygiene that follows a delivery.
  - `cursor_engine_config`, `cursor_sdk_sidecar`, `cursor_mcp_bridge`: the
    engine settings and their storage rows, the sidecar's supervision steps,
    and the MCP endpoint's authorisation, run registry and JSON-RPC answers.
  - `dense_delivery_guard`, `final_delivery_media`, `final_delivery_dedupe`:
    when a reply is spilled into a document, what the delivered message says,
    and how artifact references are resolved and rewritten.
  - `db`, `job_heartbeat`: stored records and the decisions taken on them,
    and the heartbeat state machine of background jobs.
  - `json`, `text`, `decimal`, `pattern`, `ids`, `ip_literal`, `paths`,
    `safety_redaction`, `error`, `config`: shared models and helpers; `json`,
    `pattern` and `ids` hold the calls into `serde_json`, `regex` and `uuid`.
- `tests/` — tests of the library on concrete values.
- `app/` — the I/O around the library: HTTP clients, SQLite storage,
  processes, the MCP HTTP handler and the background tasks.
