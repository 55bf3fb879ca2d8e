use faqih_ai::llm::{
    answer_budget, chat_prompt, check_prompt_tokens, effective_n_ctx, format_qwen_chatml,
    prefill_plan, prompt_decode_chunks, repetition_guard_triggered, EngineState, EnsureStart,
    Generation, LlmConfig, LlmError, LoadStart, StopReason, TemplateSource, IDLE_UNLOAD_AFTER_SECS,
    IDLE_WATCH_INTERVAL_SECS,
};

#[test]
fn repetition_guard_detects_long_loops() {
    let unit = "A".repeat(40);
    let text = unit.repeat(3);
    assert!(repetition_guard_triggered(&text));
}

#[test]
fn repetition_guard_ignores_short_legal_terms() {
    let text = "modda ".repeat(20);
    assert!(!repetition_guard_triggered(&text));
}

#[test]
fn prompt_chunking_splits_above_n_batch() {
    assert_eq!(prompt_decode_chunks(512, 512), 1);
    assert_eq!(prompt_decode_chunks(513, 512), 2);
    assert_eq!(prompt_decode_chunks(743, 512), 2);
    assert_eq!(prompt_decode_chunks(1024, 512), 2);
    assert_eq!(prompt_decode_chunks(1025, 512), 3);
}

#[test]
fn decode_chunks_of_nothing() {
    assert_eq!(prompt_decode_chunks(0, 512), 0);
    assert_eq!(prompt_decode_chunks(10, 0), 0);
}

#[test]
fn repetition_guard_needs_a_tail_repeat() {
    // A loop in the middle does not count; only the end of the text.
    let unit = "Ish haqi har oy to'lanadi va hisoblanadi. ";
    let mut text = unit.repeat(3);
    text.push_str("Keyingi band boshqa mavzuga o'tadi va davom etadi.");
    assert!(!repetition_guard_triggered(&text));
    // 119 characters are too short even when periodic.
    assert!(!repetition_guard_triggered(&"B".repeat(119)));
    // A 50-character block three times at the end.
    let mut t2 = String::from("kirish ");
    t2.push_str(&"0123456789".repeat(5).repeat(3));
    assert!(repetition_guard_triggered(&t2));
}

#[test]
fn stop_reason_names() {
    assert_eq!(StopReason::EogToken.as_str(), "eog_token");
    assert_eq!(StopReason::MaxTokens.as_str(), "max_tokens");
    assert_eq!(StopReason::RepetitionGuard.as_str(), "repetition_guard");
}

#[test]
fn template_labels() {
    assert_eq!(TemplateSource::GgufEmbedded.label(), "gguf_embedded_metadata");
    assert_eq!(TemplateSource::ExplicitQwenChatMl.label(), "explicit_qwen25_chatml");
}

#[test]
fn error_messages() {
    assert_eq!(LlmError::NotReady("x".into()).message(), "LLM not initialized: x");
    assert_eq!(LlmError::InvalidPath("p".into()).message(), "Model path missing or invalid: p");
    assert_eq!(LlmError::Load("e".into()).message(), "LLM load failed: e");
    assert_eq!(LlmError::Generate("g".into()).message(), "Generation failed: g");
}

#[test]
fn chatml_layout() {
    assert_eq!(
        format_qwen_chatml("S", "U"),
        "<|im_start|>system\nS<|im_end|>\n<|im_start|>user\nU<|im_end|>\n<|im_start|>assistant\n"
    );
    assert_eq!(chat_prompt(TemplateSource::GgufEmbedded, "S", "U"), None);
    assert_eq!(
        chat_prompt(TemplateSource::ExplicitQwenChatMl, "S", "U"),
        Some(format_qwen_chatml("S", "U"))
    );
}

#[test]
fn default_config() {
    let c = LlmConfig::default();
    assert_eq!(c.n_ctx, 4096);
    assert_eq!(c.max_tokens, 1024);
    assert!(c.n_threads >= 1);
}

#[test]
fn prefill_batches_never_exceed_n_batch() {
    let plan = prefill_plan(1025, 512);
    assert_eq!(plan.len(), 3);
    assert_eq!(plan[0].len(), 512);
    assert_eq!(plan[1].len(), 512);
    assert_eq!(plan[2].len(), 1);
    assert_eq!(plan[1][0].index, 512);
    assert_eq!(plan[1][0].pos, 512);
    let logits: usize = plan.iter().flatten().filter(|t| t.logits).count();
    assert_eq!(logits, 1);
    assert!(plan[2][0].logits);
    assert!(prefill_plan(0, 512).is_empty());
}

#[test]
fn context_window_and_prompt_checks() {
    assert_eq!(effective_n_ctx(100), 512);
    assert_eq!(effective_n_ctx(4096), 4096);
    assert!(check_prompt_tokens(10, 4096).is_ok());
    match check_prompt_tokens(0, 4096) {
        Err(LlmError::Generate(m)) => assert_eq!(m, "prompt produced zero tokens"),
        _ => panic!("expected an error"),
    }
    match check_prompt_tokens(5000, 4096) {
        Err(LlmError::Generate(m)) => {
            assert_eq!(m, "Savol yoki topilgan huquqiy matn juda uzun, qisqartiring")
        }
        _ => panic!("expected an error"),
    }
    assert_eq!(answer_budget(Some(7), 1024), 7);
    assert_eq!(answer_budget(None, 1024), 1024);
}

#[test]
fn generation_loop_stops_for_each_reason() {
    let mut g = Generation::start(10, 3, 4096);
    assert_eq!(g.n_cur, 10);
    assert_eq!(g.before_sample(), None);
    assert_eq!(g.accept_token(false, "Salom"), None);
    assert_eq!(g.n_cur, 11);
    assert_eq!(g.generated, "Salom");
    assert_eq!(g.accept_token(true, "ignored"), Some(StopReason::EogToken));
    assert_eq!(g.generated, "Salom");

    let mut full = Generation::start(4095, 100, 4096);
    assert_eq!(full.accept_token(false, "a"), None);
    assert_eq!(full.before_sample(), Some(StopReason::MaxTokens));

    let mut budget = Generation::start(1, 1, 4096);
    assert_eq!(budget.accept_token(false, "a"), None);
    assert_eq!(budget.before_sample(), Some(StopReason::MaxTokens));

    let mut looping = Generation::start(1, 1000, 4096);
    let unit = "x".repeat(40);
    assert_eq!(looping.accept_token(false, &unit), None);
    assert_eq!(looping.accept_token(false, &unit), None);
    assert_eq!(looping.accept_token(false, &unit), Some(StopReason::RepetitionGuard));
}

#[test]
fn engine_load_and_unload_cycle() {
    let mut e = EngineState::new();
    match e.begin_ensure_loaded() {
        EnsureStart::Failed(LlmError::NotReady(m)) => {
            assert_eq!(m, "No GGUF model loaded. Choose a local model in Settings.")
        }
        _ => panic!("expected no model"),
    }
    assert_eq!(e.begin_load("/nope.gguf".into(), false), LoadStart::Missing);
    assert_eq!(e.last_error.as_deref(), Some("Model path does not exist: /nope.gguf"));
    assert_eq!(e.begin_load("/m.gguf".into(), true), LoadStart::Started);
    assert_eq!(e.begin_load("/m.gguf".into(), true), LoadStart::AlreadyLoading);
    assert!(e.poll_ensure_loaded(false).is_none());
    e.finish_load("/m.gguf".into(), Ok(TemplateSource::GgufEmbedded));
    assert!(e.loaded && !e.loading);
    assert_eq!(e.template_source.as_deref(), Some("gguf_embedded_metadata"));
    assert!(matches!(e.poll_ensure_loaded(false), Some(Ok(()))));

    e.begin_inference();
    assert!(!e.idle_unload_due(10_000));
    assert!(!e.unload());
    assert!(e.loaded);
    e.end_inference();
    assert!(!e.idle_unload_due(599));
    assert!(!e.idle_watch_tick(599));
    assert!(e.loaded);
    assert!(e.idle_unload_due(600));
    assert!(e.idle_watch_tick(600));
    assert!(!e.loaded && e.idle_unloaded);
    assert_eq!(e.model_path.as_deref(), Some("/m.gguf"));
    assert!(!e.unload());

    match e.begin_ensure_loaded() {
        EnsureStart::Wait { start_load } => assert!(start_load),
        _ => panic!("expected a wait"),
    }
    assert!(e.waking);
    match e.poll_ensure_loaded(true) {
        Some(Err(LlmError::Load(m))) => assert_eq!(m, "Timed out waiting for GGUF to finish loading"),
        _ => panic!("expected a timeout"),
    }
    assert!(!e.waking);
}

#[test]
fn failed_load_is_reported() {
    let mut e = EngineState::new();
    assert_eq!(e.begin_load("/m.gguf".into(), true), LoadStart::Started);
    e.finish_load("/m.gguf".into(), Err(LlmError::Load("bad file".into())));
    assert!(!e.loaded && !e.loading);
    assert_eq!(e.last_error.as_deref(), Some("LLM load failed: bad file"));
    match e.poll_ensure_loaded(false) {
        Some(Err(LlmError::Load(m))) => assert_eq!(m, "LLM load failed: bad file"),
        _ => panic!("expected the recorded error"),
    }
}

#[test]
fn idle_watcher_unloads_within_one_interval_of_the_timeout() {
    let mut e = EngineState::new();
    assert_eq!(e.begin_load("/m.gguf".into(), true), LoadStart::Started);
    e.finish_load("/m.gguf".into(), Ok(TemplateSource::GgufEmbedded));
    // Last activity 7 s before t; ticks every interval from t + 12.
    let last_activity: u64 = 1_000;
    let t: u64 = 1_007;
    let mut now = t + 12;
    let mut unloaded_at = None;
    while now <= t + 2 * IDLE_UNLOAD_AFTER_SECS {
        if e.idle_watch_tick(now - last_activity) {
            assert!(unloaded_at.is_none());
            unloaded_at = Some(now);
        }
        if now - last_activity < IDLE_UNLOAD_AFTER_SECS {
            assert!(e.loaded);
        }
        now += IDLE_WATCH_INTERVAL_SECS;
    }
    let at = unloaded_at.expect("the watcher unloads");
    assert!(at <= t + IDLE_UNLOAD_AFTER_SECS + IDLE_WATCH_INTERVAL_SECS);
    assert!(at - last_activity >= IDLE_UNLOAD_AFTER_SECS);
    assert!(!e.loaded && e.idle_unloaded);
    assert_eq!(e.model_path.as_deref(), Some("/m.gguf"));
}
