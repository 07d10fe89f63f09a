# llmchat

The core of a lightweight desktop chat client for OpenAI-compatible APIs,
written in Verus: the logic is executable Rust whose behaviour is stated in
`requires` / `ensures` contracts and proved.

- `src/` — the verified library
  - `chat.rs` — the chat state and every transition (send, stream, rename,
    delete, models, imports, saving), with its consistency invariant
  - `view.rs` — what the window shows: sidebar order and cards, the model
    selector's menu, status lines
  - `types.rs` — messages, attachments, conversations
  - `markdown.rs` — Markdown (pulldown-cmark events) to a block tree
  - `files.rs` — importing files: kinds, text extraction, HTML to text,
    the PDF text-operator scan, truncation
  - `pdf.rs`, `epub.rs`, `imaging.rs` — PDF text and images (lopdf), EPUB
    chapters (zip), images and data URIs (image, base64)
  - `update.rs` — version comparison, release selection, the update state
  - `config.rs`, `api.rs` — file locations, API endpoints, event-stream lines
  - `text.rs` — character-level helpers and their specifications
- `tests/` — tests of the library
- `app/` — the egui window, the HTTP client, disk I/O and installation
