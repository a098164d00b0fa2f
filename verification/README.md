# newapi_status_bot

A chat-bot plugin that watches models behind a New API gateway, with its decisions
verified by Verus.

- `src/` is the library. Its functions have contracts that Verus proves:
  how log lines become samples (`domain`) without secrets (`redaction`), how samples merge into request outcomes
  (`repository`), what outcomes say about a model (`metrics`), how reports read
  (`report`), when they are pushed (`push`), how the collector moves through a
  backlog and when it waits (`collector`), who may ask for what (`command`), and
  which configuration is accepted (`config`).
- `app/` is the plugin around it: HTTP, SQLite, threads, the host's entry points.
- `tests/` runs the library on concrete values.

Binary64 numbers are kept as their bits (`double`), so that rates and limits are
compared and shown by verified code. Calls into other crates stand behind small
functions marked `#[verifier::external_body]`; the comment above each says what is
taken from that crate without proof.
