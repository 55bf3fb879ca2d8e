//! The settings screen: saving settings, the engine configuration they give,
//! and the model status shown to the user.

use vstd::prelude::*;

use crate::llm::{EngineState, LlmConfig};
use crate::models::{AppSettings, ModelStatus};
use crate::text::{chars_of, extend_str, string_of};

verus! {

/// Smallest context window accepted from the settings.
pub const MIN_N_CTX: u32 = 512;

/// Smallest answer length accepted from the settings.
pub const MIN_MAX_TOKENS: u32 = 64;

/// Shown when no model has been configured yet.
pub const MODEL_NOT_LOADED_UZ: &'static str = "AI modeli hali yuklanmagan";

/// The settings as they are saved: a context of at least 512 tokens and
/// answers of at least 64; everything else as given.
pub fn clamp_settings(settings: AppSettings) -> (r: AppSettings)
    ensures
        r.n_ctx == if settings.n_ctx < MIN_N_CTX {
            MIN_N_CTX
        } else {
            settings.n_ctx
        },
        r.max_tokens == if settings.max_tokens < MIN_MAX_TOKENS {
            MIN_MAX_TOKENS
        } else {
            settings.max_tokens
        },
        r.model_path == settings.model_path,
        r.n_threads == settings.n_threads,
        r.language == settings.language,
        r.has_seen_onboarding == settings.has_seen_onboarding,
{
    let mut s = settings;
    if s.n_ctx < MIN_N_CTX {
        s.n_ctx = MIN_N_CTX;
    }
    if s.max_tokens < MIN_MAX_TOKENS {
        s.max_tokens = MIN_MAX_TOKENS;
    }
    s
}

/// Inference threads from the settings: the configured count when it fits an
/// `i32`, else `fallback`.
pub open spec fn spec_thread_setting(n: Option<u32>, fallback: i32) -> i32 {
    match n {
        Some(k) => if k <= i32::MAX {
            k as i32
        } else {
            fallback
        },
        None => fallback,
    }
}

/// The engine configuration for the settings; `fallback_threads` is used
/// when no usable thread count is configured.
pub fn llm_config_for(settings: &AppSettings, fallback_threads: i32) -> (r: LlmConfig)
    ensures
        r.n_ctx == if settings.n_ctx < MIN_N_CTX {
            MIN_N_CTX
        } else {
            settings.n_ctx
        },
        r.max_tokens == if settings.max_tokens < MIN_MAX_TOKENS {
            MIN_MAX_TOKENS
        } else {
            settings.max_tokens
        },
        r.n_threads == spec_thread_setting(settings.n_threads, fallback_threads),
{
    let n_threads = match settings.n_threads {
        Some(k) => if k <= 2147483647u32 {
            k as i32
        } else {
            fallback_threads
        },
        None => fallback_threads,
    };
    LlmConfig {
        n_ctx: if settings.n_ctx < MIN_N_CTX {
            MIN_N_CTX
        } else {
            settings.n_ctx
        },
        n_threads,
        max_tokens: if settings.max_tokens < MIN_MAX_TOKENS {
            MIN_MAX_TOKENS
        } else {
            settings.max_tokens
        },
    }
}

/// What `Path::file_name` gives for `p`, as a string when it is valid UTF-8.
pub uninterp spec fn spec_path_file_name(p: Seq<char>) -> Option<Seq<char>>;

/// Calls `std::path::Path::file_name` on `p`; the path grammar of the
/// platform is only named.
#[verifier::external_body]
fn path_file_name(p: &str) -> (r: Option<String>)
    ensures
        r.deep_view() == spec_path_file_name(p@),
{
    std::path::Path::new(p).file_name().and_then(|s| s.to_str()).map(|s| s.to_string())
}

/// The model path shown: the engine's, else the configured one.
pub open spec fn spec_status_path(engine_path: Option<Seq<char>>, settings_path: Option<Seq<char>>) -> Option<Seq<char>> {
    match engine_path {
        Some(p) => Some(p),
        None => settings_path,
    }
}

/// The model name shown: the file name of the path, else the whole path.
pub open spec fn spec_status_name(path: Option<Seq<char>>) -> Option<Seq<char>> {
    match path {
        Some(p) => match spec_path_file_name(p) {
            Some(f) => Some(f),
            None => Some(p),
        },
        None => None,
    }
}

/// The error shown: none while loaded; else the warm-up error; else the last
/// load error; else a not-configured notice when there is no path.
pub open spec fn spec_status_error(
    loaded: bool,
    progress_error: Option<Seq<char>>,
    last_error: Option<Seq<char>>,
    path: Option<Seq<char>>,
) -> Option<Seq<char>> {
    if loaded {
        None
    } else if progress_error is Some {
        progress_error
    } else if last_error is Some {
        last_error
    } else if path is None {
        Some(MODEL_NOT_LOADED_UZ@)
    } else {
        None
    }
}

fn copy_opt(o: &Option<String>) -> (r: Option<String>)
    ensures
        r.deep_view() == o.deep_view(),
{
    match o {
        Some(s) => Some(string_of(&chars_of(s))),
        None => None,
    }
}

/// The model status for the settings screen, from the engine's state, the
/// configured model path and the error of the warm-up (if any).
pub fn model_status(
    engine: &EngineState,
    settings_model_path: &Option<String>,
    progress_error: &Option<String>,
) -> (r: ModelStatus)
    ensures
        r.loaded == engine.loaded,
        r.loading == engine.loading,
        r.waking == engine.waking,
        r.path.deep_view() == spec_status_path(
            engine.model_path.deep_view(),
            settings_model_path.deep_view(),
        ),
        r.name.deep_view() == spec_status_name(r.path.deep_view()),
        r.error.deep_view() == spec_status_error(
            engine.loaded,
            progress_error.deep_view(),
            engine.last_error.deep_view(),
            r.path.deep_view(),
        ),
        r.template_source.deep_view() == engine.template_source.deep_view(),
{
    let path = match &engine.model_path {
        Some(p) => Some(string_of(&chars_of(p))),
        None => copy_opt(settings_model_path),
    };
    let name = match &path {
        Some(p) => match path_file_name(p) {
            Some(f) => Some(f),
            None => Some(string_of(&chars_of(p))),
        },
        None => None,
    };
    let error = if engine.loaded {
        None
    } else if progress_error.is_some() {
        copy_opt(progress_error)
    } else if engine.last_error.is_some() {
        copy_opt(&engine.last_error)
    } else if path.is_none() {
        Some(string_of(&chars_of(MODEL_NOT_LOADED_UZ)))
    } else {
        None
    };
    ModelStatus {
        loaded: engine.loaded,
        loading: engine.loading,
        waking: engine.waking,
        path,
        name,
        error,
        template_source: copy_opt(&engine.template_source),
    }
}

/// A model path chosen in the settings must exist.
pub fn check_model_path(path: &str, exists: bool) -> (r: Result<(), String>)
    ensures
        exists ==> r is Ok,
        !exists ==> (r matches Err(e) && e@ == "Model file not found: "@ + path@),
{
    if exists {
        return Ok(());
    }
    let mut v: Vec<char> = Vec::new();
    extend_str(&mut v, "Model file not found: ");
    extend_str(&mut v, path);
    Err(string_of(&v))
}

} // verus!
