use faqih_ai::document_analysis::{
    analysis_chunk_budget, analysis_max_tokens, contradiction_system_prompt_for_test,
    contradiction_user_message_for_test, dedupe_contradictions_for_test, extract_json_object,
    filter_grounded_contradictions_for_test, parse_chunk_analysis, parse_contradiction_json,
    parse_contradiction_json_for_test, start_analysis, summary_grounded_in_source_for_test,
    ChunkConclusion, ANALYSIS_FAILED_UZ, CHUNK_DISCLAIMER_UZ, EMPTY_DOCUMENT_MSG, FOUND_UZ,
    RECONCILE_SYSTEM,
};
use faqih_ai::grounding::{
    dedupe_contradictions, dedupe_strings, filter_grounded_contradictions, is_meaningful_contradiction,
    near_duplicate, normalize_for_match, pair_key, quote_in_source, summary_grounded_in_source,
};
use faqih_ai::models::ContradictionItem;

fn item(a: &str, b: &str, e: &str) -> ContradictionItem {
    ContradictionItem {
        statement_a: a.into(),
        statement_b: b.into(),
        explanation: e.into(),
    }
}

#[test]
fn dedupe_removes_overlap_duplicates() {
    let items = vec![
        item("Ish haqi 8 000 000 so‘m", "Ish haqi 4 000 000 so‘m", "maosh ziddiyati"),
        item("Ish haqi 4 000 000 so‘m", "Ish haqi 8 000 000 so‘m", "same conflict swapped"),
        item(
            "Ish haqi 8 000 000 so‘m belgilangan",
            "Ish haqi 4 000 000 so‘m etib qo‘yilgan",
            "near duplicate wording",
        ),
    ];
    let deduped = dedupe_contradictions(items);
    assert_eq!(deduped.len(), 1);
}

#[test]
fn parse_accepts_snake_and_camel_keys() {
    let snake = r#"{"summary":"ok","contradictions":[{"statement_a":"A gap gap gap gap","statement_b":"B gap gap gap gap","explanation":"x"}],"key_claims":["claim claim claim claim"]}"#;
    let camel = r#"{"summary":"ok","contradictions":[{"statementA":"A gap gap gap gap","statementB":"B gap gap gap gap","explanation":"x"}],"keyClaims":["claim claim claim claim"]}"#;
    assert_eq!(parse_contradiction_json(snake).unwrap().contradictions.len(), 1);
    assert_eq!(parse_contradiction_json(camel).unwrap().contradictions.len(), 1);
    assert_eq!(parse_chunk_analysis(snake).unwrap().key_claims.len(), 1);
}

#[test]
fn parse_rejects_non_schema_json() {
    assert!(parse_contradiction_json(r#"{"foo":1}"#).is_none());
    assert!(parse_contradiction_json("not json at all").is_none());
}

#[test]
fn parse_strips_markdown_fence() {
    let raw = "```json\n{\"summary\":\"Ichki ziddiyat topilmadi.\",\"contradictions\":[],\"key_claims\":[]}\n```";
    let p = parse_contradiction_json(raw).unwrap();
    assert!(p.contradictions.is_empty());
    assert!(p.summary.contains("ziddiyat"));
}

#[test]
fn grounding_filters_fabricated_quotes() {
    let source = "Ish vaqti 09:00. Maosh 7 000 000 so‘m. Boshqa band: ish 11:00 da.";
    let items = vec![
        item("Ish vaqti 09:00", "ish 11:00 da", "vaqt"),
        item("Concert starts at 8pm", "Tickets cost $50", "hallucination"),
    ];
    let kept = filter_grounded_contradictions(items, source);
    assert_eq!(kept.len(), 1);
    assert!(kept[0].statement_a.contains("09:00"));
}

#[test]
fn rejects_identical_statement_pairs() {
    let source = "Ish 09:00 da. Ish 11:00 da.";
    let items = vec![item(
        "Ish 09:00 da.",
        "Ish 09:00 da.",
        "These statements are identical and do not contradict each other.",
    )];
    assert!(filter_grounded_contradictions(items, source).is_empty());
}

#[test]
fn prompts_for_single_and_multi_chunk() {
    let system = contradiction_system_prompt_for_test(false, 1, 0);
    assert!(!system.to_lowercase().contains("chunk 1 of"));
    assert!(system.contains("You may omit key_claims"));
    let user = contradiction_user_message_for_test("Matn.", false, 1, 0);
    assert!(user.contains("TO‘LIQ hujjat"));
    assert!(user.contains("HUJJAT BOSHLANISHI"));
    assert!(!user.contains("BO‘LIM"));
    assert!(user.contains("\nMatn.\n"));

    let system2 = contradiction_system_prompt_for_test(true, 3, 1);
    assert!(system2.contains("This is chunk 2 of 3."));
    let user2 = contradiction_user_message_for_test("Matn.", true, 3, 1);
    assert!(user2.contains("BO‘LIM"));
    assert!(user2.contains("(2/3)"));
    assert!(!user2.contains("TO‘LIQ hujjat"));
}

#[test]
fn wrappers_for_tests_agree() {
    let raw = r#"{"summary":"s","contradictions":[],"key_claims":[]}"#;
    assert_eq!(parse_contradiction_json_for_test(raw).unwrap().summary, "s");
    let items = vec![item("Ish vaqti 09:00", "ish 11:00 da", "vaqt")];
    let source = "Ish vaqti 09:00. Boshqa band: ish 11:00 da.";
    assert_eq!(filter_grounded_contradictions_for_test(items, source).len(), 1);
    assert!(summary_grounded_in_source_for_test("Ichki ziddiyat topilmadi.", "x"));
    let dup = vec![item("aaaa", "bbbb", "1"), item("bbbb", "aaaa", "2")];
    assert_eq!(dedupe_contradictions_for_test(dup).len(), 1);
}

#[test]
fn json_object_is_found_inside_prose() {
    assert_eq!(
        extract_json_object("Javob: {\"a\": {\"b\": 1}} tamom").as_deref(),
        Some("{\"a\": {\"b\": 1}}")
    );
    assert_eq!(extract_json_object("no braces"), None);
    assert_eq!(extract_json_object("} before {"), None);
}

#[test]
fn summary_grounding_rules() {
    let source = "Ish beruvchi xodimga har oy ish haqi to'laydi. Shartnoma muddati bir yil.";
    assert!(!summary_grounded_in_source("", source));
    // Fewer than four words of four or more characters: nothing to check.
    assert!(summary_grounded_in_source("Ichki ziddiyat topilmadi.", "x"));
    // Four long words, none of them in the source.
    assert!(!summary_grounded_in_source("Hujjatda ichki ziddiyatlar aniqlandi.", "x"));
    // One of four long words found: exactly a quarter.
    assert!(summary_grounded_in_source("Shartnoma bandlari alohida tekshirildi", source));
    assert!(!summary_grounded_in_source(
        "The document provides detailed information about the location, schedule, and ticket prices for a concert.",
        source
    ));
    assert!(summary_grounded_in_source("Shartnoma muddati ish haqi", source));
}

#[test]
fn quote_matching_ignores_case_punctuation_and_spacing() {
    let n: String = normalize_for_match("  Ish,  VAQTI:\n09:00 ‘a’ “b” ").into_iter().collect();
    assert_eq!(n, "ish, vaqti: 09:00 'a' \"b\"");
    assert!(quote_in_source("ISH VAQTI 09:00", "Bu yerda ish vaqti 09:00 belgilangan."));
    assert!(!quote_in_source("qisqa", "bu qisqa matn"));
}

#[test]
fn meaningful_pairs_need_two_different_statements() {
    assert!(is_meaningful_contradiction(&item("Ish 09:00 da", "Ish 11:00 da", "vaqt")));
    assert!(!is_meaningful_contradiction(&item("Ish 09:00 da", "", "vaqt")));
    assert!(!is_meaningful_contradiction(&item("Ish 09:00 da", "ish 09:00 da", "vaqt")));
}

#[test]
fn pair_key_and_near_duplicates_ignore_order() {
    let a = item("Birinchi band", "Ikkinchi band", "x");
    let b = item("Ikkinchi band", "Birinchi band", "y");
    assert_eq!(pair_key(&a), pair_key(&b));
    assert!(near_duplicate(&a, &b));
    assert!(near_duplicate(&b, &a));
    assert!(!near_duplicate(&a, &item("Uchinchi", "Tortinchi", "z")));
}

#[test]
fn claims_are_deduplicated_and_capped() {
    let claims = vec![
        "Ish haqi 8 000 000 so'm".to_string(),
        "ish haqi 8 000 000 so'm.".to_string(),
        "qisqa".to_string(),
        "Shartnoma muddati bir yil".to_string(),
    ];
    let out = dedupe_strings(claims, 48);
    assert_eq!(out.len(), 2);
    let many: Vec<String> = (0..10).map(|i| format!("Alohida da'vo raqami {i}")).collect();
    assert_eq!(dedupe_strings(many, 3).len(), 3);
}

#[test]
fn analysis_budgets() {
    assert_eq!(analysis_max_tokens(512), 1024);
    assert_eq!(analysis_max_tokens(2048), 2048);
    assert_eq!(analysis_chunk_budget(4096), 3072);
    assert_eq!(analysis_chunk_budget(512), 2000);
    assert_eq!(analysis_chunk_budget(32768), 12000);
}

#[test]
fn empty_document_is_refused() {
    match start_analysis("", 4096) {
        Err(e) => assert_eq!(e, EMPTY_DOCUMENT_MSG),
        _ => panic!("expected a refusal"),
    }
}

#[test]
fn single_chunk_analysis_end_to_end() {
    let text = "Ish vaqti 09:00. Maosh 7 000 000 so‘m. Boshqa band: ish 11:00 da.";
    let mut s = match start_analysis(text, 4096) {
        Ok(s) => s,
        _ => panic!("expected a session"),
    };
    assert_eq!(s.chunks.len(), 1);
    let (system, user) = s.next_prompts().unwrap();
    assert!(system.contains("ONE complete short document"));
    assert!(user.contains(text));
    s.record_chunk_answer(
        r#"{"summary":"Ish vaqti 09:00 va ish 11:00 da","contradictions":[{"statement_a":"Ish vaqti 09:00","statement_b":"ish 11:00 da","explanation":"vaqt"},{"statement_a":"Concert starts at 8pm","statement_b":"Tickets cost $50","explanation":"x"}],"key_claims":[]}"#,
    );
    assert!(s.next_prompts().is_none());
    assert_eq!(s.items.len(), 1);
    let pending = match s.conclude() {
        ChunkConclusion::Pending(p) => p,
        ChunkConclusion::Report(_) => panic!("expected findings"),
    };
    assert!(pending.reconcile_prompts().is_none());
    let mut pending = pending;
    pending.apply_reconciliation(None);
    let report = pending.finish();
    assert!(!report.analysis_failed);
    assert!(!report.was_chunked);
    assert_eq!(report.contradictions.len(), 1);
    assert_eq!(report.summary, "Ish vaqti 09:00 va ish 11:00 da");
    assert_eq!(report.document_length_chars, text.chars().count());
}

#[test]
fn single_chunk_parse_failure_is_reported_as_failed() {
    let mut s = match start_analysis("Qisqa hujjat matni.", 4096) {
        Ok(s) => s,
        _ => panic!("expected a session"),
    };
    s.record_chunk_answer("I cannot answer that.");
    assert!(s.any_parse_failed);
    match s.conclude() {
        ChunkConclusion::Report(r) => {
            assert!(r.analysis_failed);
            assert_eq!(r.summary, ANALYSIS_FAILED_UZ);
            assert!(r.contradictions.is_empty());
        }
        ChunkConclusion::Pending(_) => panic!("expected a failed report"),
    }
}

#[test]
fn ungrounded_summary_with_findings_is_replaced() {
    let text = "Ish vaqti 09:00. Maosh 7 000 000 so‘m. Boshqa band: ish 11:00 da.";
    let mut s = match start_analysis(text, 4096) {
        Ok(s) => s,
        _ => panic!("expected a session"),
    };
    s.record_chunk_answer(
        r#"{"summary":"A concert with tickets and famous performers tonight","contradictions":[{"statement_a":"Ish vaqti 09:00","statement_b":"ish 11:00 da","explanation":"vaqt"}],"key_claims":[]}"#,
    );
    assert!(s.any_ungrounded);
    assert!(!s.any_parse_failed);
    assert_eq!(s.summaries, vec![FOUND_UZ.to_string()]);
}

#[test]
fn chunked_analysis_reconciles_against_whole_text() {
    let mut text = String::new();
    for i in 1..=80 {
        text.push_str(&format!("Band {i}. Ish haqi oyiga {i} million so'm etib belgilanadi. "));
    }
    let mut s = match start_analysis(&text, 512) {
        Ok(s) => s,
        _ => panic!("expected a session"),
    };
    let n = s.chunks.len();
    assert!(n > 1);
    let mut i = 0;
    while let Some((system, _user)) = s.next_prompts() {
        assert!(system.contains(&format!("This is chunk {} of {}.", i + 1, n)));
        s.record_chunk_answer(
            r#"{"summary":"Ish haqi","contradictions":[],"key_claims":["Band 1. Ish haqi oyiga 1 million","Band 2. Ish haqi oyiga 2 million"]}"#,
        );
        i += 1;
    }
    assert_eq!(i, n);
    let mut pending = match s.conclude() {
        ChunkConclusion::Pending(p) => p,
        ChunkConclusion::Report(_) => panic!("expected a pending report"),
    };
    let (rs, ru) = pending.reconcile_prompts().expect("reconciliation runs");
    assert_eq!(rs, RECONCILE_SYSTEM);
    assert!(ru.starts_with("CLAIMS (from all chunks):\n1. "));
    assert!(ru.contains("(none yet)"));
    pending.apply_reconciliation(Some(Ok(
        r#"{"summary":"","contradictions":[{"statement_a":"Ish haqi oyiga 1 million","statement_b":"Ish haqi oyiga 2 million","explanation":"farq"},{"statement_a":"Invented clause here","statement_b":"Another invented clause","explanation":"x"}],"key_claims":[]}"#
            .to_string(),
    )));
    assert_eq!(pending.found.len(), 1);
    let report = pending.finish();
    assert!(report.was_chunked);
    assert!(report.summary.ends_with(CHUNK_DISCLAIMER_UZ));
    assert!(report.summary.starts_with(&format!("{n} bo‘lim tahlil qilindi")));
    assert_eq!(report.contradictions.len(), 1);
}

#[test]
fn dedupe_keeps_order_and_the_first_duplicate() {
    let items = vec![
        item("Birinchi band matni", "Ikkinchi band matni", "first"),
        item("Uchinchi band matni", "Tortinchi band matni", "other"),
        item("Ikkinchi band matni", "Birinchi band matni", "swapped"),
    ];
    let out = dedupe_contradictions(items);
    let expl: Vec<&str> = out.iter().map(|i| i.explanation.as_str()).collect();
    assert_eq!(expl, vec!["first", "other"]);
}
