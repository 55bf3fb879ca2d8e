# faqih_ai

The core of Faqih AI, an offline legal assistant for Uzbek labour and civil
law: document chunking, the internal-consistency (contradiction) analysis of
documents, prompt construction for retrieval-augmented answers, and the
bookkeeping around the local language model and its first-run download.

## Layout

- `src/` — the library, written in Verus. Every function states its behaviour
  in `requires` / `ensures` and is proved. Laws that span several functions
  are public proof functions named `law_*`.
  - `text.rs` — character-level primitives (trimming, whitespace, search,
    decimal rendering).
  - `document_text.rs` — document text: paragraph and sentence units,
    overlapping chunks, DOCX/PDF text.
  - `grounding.rs` — checks that model quotes come from the document, and
    de-duplication of findings.
  - `document_analysis.rs` — prompts, parsing of the model's JSON answers,
    and the step-by-step analysis session.
  - `llm.rs` — stop reasons, chat formatting, the prefill plan, the
    generation loop and the engine's load/unload state.
  - `rag.rs`, `chat.rs`, `chat_db.rs` — legal question answering.
  - `paths.rs`, `settings.rs`, `model_download.rs`, `warmup.rs`,
    `engine_progress.rs`, `embeddings.rs`, `vector_store.rs`, `hello.rs`,
    `json.rs`, `models.rs`.
- `tests/` — tests run against the compiled library.
- `app/` — ordinary Rust around the library: files, the settings file, the
  SQLite chat store, the HTTP download, host statistics, and the drivers that
  run the language model over the library's decisions.
