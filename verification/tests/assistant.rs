use faqih_ai::chat::{
    fallback_model_path, prepare_chat_message, reference_excerpt, session_title, stream_end_event,
    token_event,
};
use faqih_ai::chat_db::{add_column_sql, column_listed, column_upgrade, table_info_sql};
use faqih_ai::embeddings::{
    check_hidden_shape, check_model_files, default_max_len, effective_max_length, embedding_dim, embedding_input,
    fit_to_length, token_type_ids, EmbeddingError, QUERY_PREFIX,
};
use faqih_ai::engine_progress::{stage_id, EngineProgress, EngineStage};
use faqih_ai::hello::hello_world;
use faqih_ai::llm::{EngineState, LlmConfig, StopReason, TemplateSource};
use faqih_ai::models::{AppSettings, LanguagePreference};
use faqih_ai::rag::{
    assemble_user_prompt, build_system_prompt, detect_language, language_instruction, LegalContext,
};
use faqih_ai::settings::{check_model_path, clamp_settings, llm_config_for, model_status};
use faqih_ai::vector_store::{
    column_strings, context_row, effective_top_k, missing_db_error, require_lexuz_table,
    VectorStoreError,
};
use faqih_ai::warmup::{poll_llm_ready, Warmup, WarmupAction};

#[test]
fn greeting() {
    let r = hello_world("  Ali ", "0.1.0");
    assert_eq!(r.message, "Hello, Ali! Faqih AI Rust bridge is online (100% offline).");
    assert_eq!(r.app_name, "Faqih AI by MOND");
    assert_eq!(r.version, "0.1.0");
    assert!(r.offline);
    assert_eq!(
        hello_world(" \t", "1").message,
        "Hello, world! Faqih AI Rust bridge is online (100% offline)."
    );
}

#[test]
fn language_detection() {
    assert_eq!(detect_language("Что такое трудовой договор?"), "ru");
    assert_eq!(detect_language("What are the labor rights under the contract?"), "en");
    assert_eq!(detect_language("Mehnat shartnomasi qanday tuziladi?"), "uz");
    assert_eq!(detect_language(""), "uz");
    // Two Russian stopwords win even in Latin-heavy text.
    assert_eq!(detect_language("contract что это"), "ru");
    // English needs more hits than Uzbek.
    assert_eq!(detect_language("the and modda kodeks mehnat"), "uz");
}

#[test]
fn language_rules() {
    assert_eq!(
        language_instruction(LanguagePreference::Uz, "x"),
        "Always respond in Uzbek (Latin script), regardless of the question language."
    );
    assert_eq!(
        language_instruction(LanguagePreference::Ru, "x"),
        "Always respond in Russian, regardless of the question language."
    );
    assert_eq!(
        language_instruction(LanguagePreference::En, "x"),
        "Always respond in English, regardless of the question language."
    );
    assert_eq!(
        language_instruction(LanguagePreference::Auto, "What is the labor contract?"),
        "Match the user's language (detected: en). Respond in that language."
    );
}

fn ctx(law: &str, art: &str, text: &str) -> LegalContext {
    LegalContext {
        id: "1".into(),
        text: text.into(),
        law_name: law.into(),
        article_number: art.into(),
        chapter: "I".into(),
        section_title: "Umumiy".into(),
    }
}

#[test]
fn system_prompt_lists_articles() {
    let none = build_system_prompt(LanguagePreference::Uz, "savol", &vec![]);
    assert!(none.starts_with("You are Faqih AI, an offline legal assistant"));
    assert!(none.contains("\n4. Always respond in Uzbek (Latin script)"));
    assert!(none.ends_with("RETRIEVED LEGISLATION:\n(No relevant legislation was retrieved for this question.)"));
    let two = build_system_prompt(
        LanguagePreference::Ru,
        "savol",
        &vec![ctx("Mehnat kodeksi", "126", "Matn A"), ctx("Fuqarolik kodeksi", "5", "Matn B")],
    );
    assert!(two.ends_with(
        "RETRIEVED LEGISLATION:\n[Mehnat kodeksi — Art. 126]\nChapter: I\nSection: Umumiy\nMatn A\n\n---\n\n[Fuqarolik kodeksi — Art. 5]\nChapter: I\nSection: Umumiy\nMatn B"
    ));
    assert_eq!(assemble_user_prompt("  Savol?\n"), "Savol?");
}

#[test]
fn chat_inputs_and_events() {
    assert_eq!(prepare_chat_message("  salom  ").unwrap(), "salom");
    assert_eq!(prepare_chat_message(" \n ").unwrap_err(), "Message must not be empty");
    assert_eq!(token_event("abc").token, "abc");
    assert_eq!(stream_end_event(StopReason::MaxTokens).stop_reason, "max_tokens");
    let long = "ж".repeat(500);
    assert_eq!(reference_excerpt(&long).chars().count(), 400);
    assert_eq!(reference_excerpt("qisqa"), "qisqa");
    assert_eq!(session_title("Mehnat ta'tili qancha?"), "Mehnat ta'tili qancha?");
    assert_eq!(session_title("   "), "New chat");
    assert_eq!(session_title(&"a".repeat(100)).chars().count(), 80);
    assert_eq!(fallback_model_path(&Some("/m.gguf".into()), false).as_deref(), Some("/m.gguf"));
    assert_eq!(fallback_model_path(&Some("/m.gguf".into()), true), None);
    assert_eq!(fallback_model_path(&None, false), None);
}

#[test]
fn schema_upgrade_statements() {
    let cols = vec!["id".to_string(), "content".to_string()];
    assert!(column_listed(&cols, "content"));
    assert!(!column_listed(&cols, "references_json"));
    assert_eq!(table_info_sql("messages"), "PRAGMA table_info(messages)");
    assert_eq!(
        add_column_sql("messages", "references_json", "TEXT NOT NULL DEFAULT '[]'"),
        "ALTER TABLE messages ADD COLUMN references_json TEXT NOT NULL DEFAULT '[]'"
    );
    assert_eq!(column_upgrade(&cols, "messages", "content", "TEXT"), None);
    assert_eq!(
        column_upgrade(&cols, "messages", "extra", "TEXT").as_deref(),
        Some("ALTER TABLE messages ADD COLUMN extra TEXT")
    );
}

#[test]
fn embedding_inputs() {
    assert_eq!(embedding_dim(), 384);
    assert_eq!(default_max_len(), 256);
    assert_eq!(effective_max_length(3), 8);
    assert_eq!(effective_max_length(256), 256);
    assert_eq!(embedding_input(QUERY_PREFIX, "savol"), "query: savol");
    assert_eq!(fit_to_length(&vec![5, 6, 7], 5), vec![5, 6, 7, 0, 0]);
    assert_eq!(fit_to_length(&vec![5, 6, 7], 2), vec![5, 6]);
    assert_eq!(token_type_ids(3), vec![0, 0, 0]);
    assert_eq!(check_hidden_shape(&vec![1, 256, 384]).ok(), Some((1, 256, 384)));
    match check_hidden_shape(&vec![1, -2, 768]) {
        Err(EmbeddingError::Inference(m)) => {
            assert_eq!(m, "unexpected last_hidden_state shape: [1, -2, 768]")
        }
        _ => panic!("expected a shape error"),
    }
    assert_eq!(EmbeddingError::Tokenizer("t".into()).message(), "Tokenizer error: t");
    assert!(check_model_files("/m.onnx", true, "/t.json", true).is_ok());
    match check_model_files("/m.onnx", false, "/t.json", false) {
        Err(EmbeddingError::NotReady(m)) => assert_eq!(m, "missing ONNX model at /m.onnx"),
        _ => panic!("expected a missing model"),
    }
    match check_model_files("/m.onnx", true, "/t.json", false) {
        Err(EmbeddingError::NotReady(m)) => assert_eq!(m, "missing tokenizer.json at /t.json"),
        _ => panic!("expected a missing tokenizer"),
    }
}

#[test]
fn vector_store_rows() {
    assert!(require_lexuz_table(&vec!["a".into(), "lexuz_articles".into()]).is_ok());
    match require_lexuz_table(&vec!["a".into()]) {
        Err(VectorStoreError::NotReady(m)) => assert_eq!(m, "table lexuz_articles not found in lexuz.db"),
        _ => panic!("expected a missing table"),
    }
    assert_eq!(missing_db_error("/x").message(), "Vector store not available: Missing lexuz DB at /x");
    assert_eq!(effective_top_k(0), 1);
    assert_eq!(effective_top_k(5), 5);
    assert_eq!(column_strings(&vec![Some("a".into()), None]), vec!["a".to_string(), String::new()]);
    let ids = vec!["i1".to_string()];
    let texts = vec!["t1".to_string(), "t2".to_string()];
    let row = context_row(&ids, &texts, &texts, &texts, &texts, &texts, 1);
    assert_eq!(row.id, "");
    assert_eq!(row.text, "t2");
}

#[test]
fn settings_and_status() {
    let mut s = AppSettings::default();
    s.n_ctx = 100;
    s.max_tokens = 10;
    s.n_threads = Some(3);
    let c = clamp_settings(s);
    assert_eq!(c.n_ctx, 512);
    assert_eq!(c.max_tokens, 64);
    let cfg: LlmConfig = llm_config_for(&c, 9);
    assert_eq!(cfg.n_threads, 3);
    let mut d = AppSettings::default();
    d.n_threads = Some(u32::MAX);
    assert_eq!(llm_config_for(&d, 9).n_threads, 9);
    assert_eq!(llm_config_for(&AppSettings::default(), 4).n_ctx, 4096);

    let mut e = EngineState::new();
    let st = model_status(&e, &None, &None);
    assert_eq!(st.error.as_deref(), Some("AI modeli hali yuklanmagan"));
    assert!(st.path.is_none() && st.name.is_none());
    let st2 = model_status(&e, &Some("/models/q.gguf".into()), &None);
    assert_eq!(st2.path.as_deref(), Some("/models/q.gguf"));
    assert_eq!(st2.name.as_deref(), Some("q.gguf"));
    assert!(st2.error.is_none());
    let st3 = model_status(&e, &Some("/models/q.gguf".into()), &Some("warm-up failed".into()));
    assert_eq!(st3.error.as_deref(), Some("warm-up failed"));
    e.begin_load("/other/w.gguf".into(), true);
    e.finish_load("/other/w.gguf".into(), Ok(TemplateSource::ExplicitQwenChatMl));
    let st4 = model_status(&e, &Some("/models/q.gguf".into()), &Some("warm-up failed".into()));
    assert!(st4.loaded);
    assert_eq!(st4.path.as_deref(), Some("/other/w.gguf"));
    assert_eq!(st4.name.as_deref(), Some("w.gguf"));
    assert!(st4.error.is_none());
    assert_eq!(st4.template_source.as_deref(), Some("explicit_qwen25_chatml"));

    assert!(check_model_path("/m", true).is_ok());
    assert_eq!(check_model_path("/m", false).unwrap_err(), "Model file not found: /m");
}

#[test]
fn progress_reports() {
    assert_eq!(stage_id(EngineStage::LoadingEmbeddings), "loading_embeddings");
    let p = EngineProgress::stage(EngineStage::ConnectingDb, Some(75));
    assert_eq!(p.stage_id, "connecting_db");
    assert!(!p.ready);
    assert!(EngineProgress::stage(EngineStage::Ready, None).ready);
    let r = EngineProgress::ready();
    assert!(r.ready);
    assert_eq!(r.percent, Some(100));
    let e = EngineProgress::error("boom".into());
    assert_eq!(e.stage, EngineStage::Error);
    assert_eq!(e.stage_id, "error");
    assert_eq!(e.error.as_deref(), Some("boom"));
    assert!(!e.ready);
}

#[test]
fn warmup_with_model() {
    let mut w = Warmup::new(true);
    let (p, a) = w.begin();
    assert_eq!(p[0].percent, Some(8));
    assert!(matches!(a, WarmupAction::CheckFiles));
    let (p, a) = w.files_checked("/o", true, "/t", true, "/l", true);
    assert_eq!(p.len(), 2);
    assert_eq!(p[0].stage, EngineStage::LoadingLlm);
    assert_eq!(p[1].percent, Some(45));
    assert!(matches!(a, WarmupAction::LoadEmbeddings { start_llm: true }));
    let (p, a) = w.embeddings_loaded(Ok(()));
    assert_eq!(p[0].percent, Some(75));
    assert!(matches!(a, WarmupAction::OpenDb));
    let (p, a) = w.db_opened(Ok(()));
    assert_eq!(p[0].percent, Some(88));
    assert!(matches!(a, WarmupAction::WaitLlm));
    let (p, a) = w.llm_ready(Ok(()));
    assert!(p[0].ready);
    assert!(matches!(a, WarmupAction::Done));
    assert!(w.finished);
}

#[test]
fn warmup_failures() {
    let mut w = Warmup::new(false);
    w.begin();
    let (_, a) = w.files_checked("/o", true, "/t", false, "/l", true);
    match a {
        WarmupAction::Fail(m) => assert_eq!(
            m,
            "Tokenizer fayli topilmadi (/t). Ilovani to‘liq o‘rnating yoki resources/models papkasini tekshiring."
        ),
        _ => panic!("expected a failure"),
    }
    assert!(w.finished);

    let mut w2 = Warmup::new(false);
    w2.begin();
    let (p, a) = w2.files_checked("/o", true, "/t", true, "/l", true);
    assert_eq!(p.len(), 1);
    assert!(matches!(a, WarmupAction::LoadEmbeddings { start_llm: false }));
    w2.embeddings_loaded(Ok(()));
    let (p, a) = w2.db_opened(Ok(()));
    assert_eq!(p[0].percent, Some(90));
    assert!(matches!(a, WarmupAction::Done));
    assert!(w2.finished);

    let mut w3 = Warmup::new(false);
    w3.begin();
    w3.files_checked("/o", true, "/t", true, "/l", true);
    match w3.embeddings_loaded(Err("no onnx".into())).1 {
        WarmupAction::Fail(m) => assert_eq!(
            m,
            "Embedding modelini yuklab bo‘lmadi: no onnx. ONNX va tokenizer fayllarini tekshirib, dasturni qayta oching."
        ),
        _ => panic!("expected a failure"),
    }
}

#[test]
fn waiting_for_the_model_at_start() {
    let mut e = EngineState::new();
    assert_eq!(
        poll_llm_ready(&e, false),
        Some(Err("Til modelini yuklab bo‘lmadi. Model faylini qayta yuklab oling yoki Sozlamalardan boshqa GGUF tanlang.".to_string()))
    );
    e.begin_load("/m".into(), true);
    assert_eq!(poll_llm_ready(&e, false), None);
    assert_eq!(
        poll_llm_ready(&e, true),
        Some(Err("Til modelini yuklash vaqti tugadi. Kompyuter xotirasini bo‘shating va dasturni qayta oching.".to_string()))
    );
    e.finish_load("/m".into(), Ok(TemplateSource::GgufEmbedded));
    assert_eq!(poll_llm_ready(&e, false), Some(Ok(())));
}
