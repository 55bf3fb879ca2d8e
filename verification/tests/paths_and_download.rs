use faqih_ai::model_download::{
    default_model_path, friendly_error, hydrate_settings_from_default_model, is_valid_model_file,
    magic_check_failed, model_needs_setup, partial_model_path, range_header_value, record_chunk,
    remaining_bytes, reported_bytes, response_action, resume_offset, setup_status, total_bytes,
    verify_final_size, DownloadFlag, ResponseAction, EXPECTED_MODEL_BYTES,
};
use faqih_ai::models::AppSettings;
use faqih_ai::paths::{
    app_data_dir, app_data_dir_from, chat_db_path, default_gguf_path, default_thread_count,
    embedding_onnx_path, join_path, lexuz_db_path, manifest_resources_dir, models_dir,
    resolve_resource, settings_path, thread_count_from_cpus, tokenizer_path, ResourceRoot,
};

#[test]
fn joining_paths() {
    assert_eq!(join_path("/a", "b"), "/a/b");
    assert_eq!(join_path("/a/", "b"), "/a/b");
    assert_eq!(join_path("", "b"), "b");
}

#[test]
fn resource_layout() {
    assert_eq!(models_dir("/r"), "/r/models");
    assert_eq!(embedding_onnx_path("/r"), "/r/models/multilingual-e5-small.onnx");
    assert_eq!(tokenizer_path("/r"), "/r/models/tokenizer.json");
    assert_eq!(lexuz_db_path("/r"), "/r/lexuz.db");
    assert_eq!(manifest_resources_dir("/src-tauri"), "/src-tauri/resources");
    assert_eq!(resolve_resource("/x/y"), "/x/y");
}

#[test]
fn resource_root_prefers_configured_then_candidates() {
    let mut root = ResourceRoot::new();
    assert_eq!(root.resource_root("/m"), "/m/resources");
    root.set_resource_root("/opt/app".to_string());
    assert_eq!(root.resource_root("/m"), "/opt/app");

    let candidates = vec!["/c1".to_string(), "/c2".to_string(), "/c3".to_string()];
    root.configure_resource_root_from_candidates(&candidates, &vec![false, false, true], &vec![false, true, false], "/m");
    assert_eq!(root.resource_root("/m"), "/c2");
    root.configure_resource_root_from_candidates(&candidates, &vec![false; 3], &vec![false; 3], "/m");
    assert_eq!(root.resource_root("/m"), "/m/resources");

    let mut stepwise = ResourceRoot::new();
    assert!(!stepwise.offer_resource_candidate("/c1", false, false));
    assert!(stepwise.configured.is_none());
    assert!(stepwise.offer_resource_candidate("/c2", true, false));
    assert_eq!(stepwise.resource_root("/m"), "/c2");
    let mut fallback = ResourceRoot::new();
    fallback.use_manifest_resources("/m");
    assert_eq!(fallback.resource_root("/x"), "/m/resources");
}

#[test]
fn app_data_files() {
    assert_eq!(app_data_dir_from(Some("/home/u/.local/share".into())), "/home/u/.local/share/com.mond.faqihai");
    assert_eq!(app_data_dir_from(None), "./com.mond.faqihai");
    assert!(app_data_dir().ends_with("com.mond.faqihai"));
    assert_eq!(settings_path("/d"), "/d/settings.json");
    assert_eq!(chat_db_path("/d"), "/d/chat.sqlite");
    assert_eq!(default_model_path("/d"), "/d/models/Qwen2.5-1.5B-Instruct-Q4_K_M.gguf");
    assert_eq!(partial_model_path("/d"), "/d/models/Qwen2.5-1.5B-Instruct-Q4_K_M.gguf.partial");
    assert_eq!(default_gguf_path("/d"), default_model_path("/d"));
}

#[test]
fn thread_counts() {
    assert_eq!(thread_count_from_cpus(0), 1);
    assert_eq!(thread_count_from_cpus(1), 1);
    assert_eq!(thread_count_from_cpus(2), 1);
    assert_eq!(thread_count_from_cpus(8), 7);
    assert!(default_thread_count() >= 1);
}

#[test]
fn model_file_validity() {
    let magic = b"GGUF".to_vec();
    assert!(is_valid_model_file(Some(EXPECTED_MODEL_BYTES), Some(magic.clone())));
    assert!(!is_valid_model_file(Some(EXPECTED_MODEL_BYTES - 1), Some(magic.clone())));
    assert!(!is_valid_model_file(Some(EXPECTED_MODEL_BYTES), Some(b"GGUG".to_vec())));
    assert!(!is_valid_model_file(Some(EXPECTED_MODEL_BYTES), None));
    assert!(!is_valid_model_file(None, Some(magic)));
}

#[test]
fn settings_hydration_and_setup() {
    let mut s = AppSettings::default();
    assert!(model_needs_setup(&s, false, false));
    assert!(!model_needs_setup(&s, false, true));
    assert!(!hydrate_settings_from_default_model(&mut s, false, "/d/m.gguf", false));
    assert!(s.model_path.is_none());
    assert!(hydrate_settings_from_default_model(&mut s, false, "/d/m.gguf", true));
    assert_eq!(s.model_path.as_deref(), Some("/d/m.gguf"));
    s.model_path = Some("/mine.gguf".into());
    assert!(!hydrate_settings_from_default_model(&mut s, true, "/d/m.gguf", true));
    assert_eq!(s.model_path.as_deref(), Some("/mine.gguf"));
    assert!(!model_needs_setup(&s, true, false));

    let st = setup_status(&s, true, "/d/m.gguf", true, 7, false);
    assert!(st.ready);
    assert_eq!(st.local_path.as_deref(), Some("/mine.gguf"));
    assert_eq!(st.expected_bytes, EXPECTED_MODEL_BYTES);
    assert_eq!(st.partial_bytes, 7);
    let st2 = setup_status(&s, false, "/d/m.gguf", true, 0, true);
    assert_eq!(st2.local_path.as_deref(), Some("/d/m.gguf"));
    assert!(st2.downloading);
    let st3 = setup_status(&s, false, "/d/m.gguf", false, 0, false);
    assert!(!st3.ready);
    assert!(st3.local_path.is_none());
}

#[test]
fn friendly_errors() {
    assert_eq!(
        friendly_error("network", "timeout"),
        "Internetga ulanishda muammo yuz berdi. Iltimos, aloqani tekshirib, qayta urinib ko‘ring.\n(timeout)"
    );
    assert_eq!(
        friendly_error("disk", "full"),
        "Diskda yetarli joy yo‘q yoki faylni yozib bo‘lmadi. Bo‘sh joy ajratib, qayta urinib ko‘ring.\n(full)"
    );
    assert_eq!(friendly_error("busy", "ignored"), "Model yuklab olinmoqda. Iltimos, kuting.");
    assert_eq!(
        friendly_error("other", "x"),
        "Modelni yuklab olishda xatolik. Qayta urinib ko‘ring.\n(x)"
    );
    assert_eq!(
        magic_check_failed(),
        "Yuklab olingan AI modeli tekshiruvdan o‘tmadi. Qayta yuklab olish kerak.\n(magic/size check failed)"
    );
}

#[test]
fn one_download_at_a_time() {
    let mut f = DownloadFlag::new();
    assert!(!f.download_busy());
    assert!(f.try_begin().is_ok());
    assert!(f.download_busy());
    assert_eq!(f.try_begin().unwrap_err(), "Model yuklab olinmoqda. Iltimos, kuting.");
    f.end();
    assert!(!f.download_busy());
}

#[test]
fn flag_is_set_exactly_while_the_holding_call_runs() {
    let mut f = DownloadFlag::new();
    // Call 1 claims the slot; call 2 is refused and returns at once.
    assert!(f.try_begin().is_ok());
    assert!(f.try_begin().is_err());
    assert!(f.download_busy());
    // Call 1 returns (with an error this time) and releases the slot.
    f.end();
    assert!(!f.download_busy());
    // Call 3 claims it again.
    assert!(f.try_begin().is_ok());
    assert!(f.download_busy());
    f.end();
    assert!(!f.download_busy());
}

#[test]
fn resuming_downloads() {
    assert_eq!(resume_offset(None), (0, false));
    assert_eq!(resume_offset(Some(1000)), (1000, false));
    assert_eq!(resume_offset(Some(EXPECTED_MODEL_BYTES)), (0, true));
    assert_eq!(range_header_value(0), None);
    assert_eq!(range_header_value(1000).as_deref(), Some("bytes=1000-"));
}

#[test]
fn server_answers() {
    assert!(matches!(response_action(416, 10), ResponseAction::Restart));
    assert!(matches!(response_action(200, 10), ResponseAction::Restart));
    assert!(matches!(response_action(200, 0), ResponseAction::Proceed));
    assert!(matches!(response_action(206, 10), ResponseAction::Proceed));
    match response_action(404, 0) {
        ResponseAction::Fail(m) => assert_eq!(
            m,
            "Internetga ulanishda muammo yuz berdi. Iltimos, aloqani tekshirib, qayta urinib ko‘ring.\n(server status 404 Not Found)"
        ),
        _ => panic!("expected a failure"),
    }
}

#[test]
fn total_size_and_progress() {
    assert_eq!(total_bytes(false, 0, None), EXPECTED_MODEL_BYTES);
    assert_eq!(total_bytes(false, 0, Some(EXPECTED_MODEL_BYTES + 100)), EXPECTED_MODEL_BYTES);
    assert_eq!(total_bytes(true, 1000, Some(EXPECTED_MODEL_BYTES - 1000)), EXPECTED_MODEL_BYTES);
    assert_eq!(total_bytes(false, 0, Some(5000)), 5000);
    assert_eq!(total_bytes(true, 1000, Some(5000)), 6000);
    assert_eq!(total_bytes(false, 0, Some(0)), EXPECTED_MODEL_BYTES);
    assert_eq!(record_chunk(10, 5, 100, false), (15, false));
    assert_eq!(record_chunk(10, 5, 100, true), (15, true));
    assert_eq!(record_chunk(95, 5, 100, false), (100, true));
    assert_eq!(reported_bytes(120, 100), 100);
    assert_eq!(reported_bytes(20, 100), 20);
    assert_eq!(remaining_bytes(20, 100), 80);
    assert_eq!(remaining_bytes(120, 100), 0);
}

#[test]
fn final_size_check() {
    assert!(verify_final_size(EXPECTED_MODEL_BYTES).is_ok());
    assert_eq!(
        verify_final_size(12).unwrap_err(),
        "Yuklab olingan AI modeli tekshiruvdan o‘tmadi. Qayta yuklab olish kerak.\n(size 12, expected 986048768)"
    );
}
