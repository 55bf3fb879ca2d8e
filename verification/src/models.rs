//! Plain data exchanged between the library and its callers.

use vstd::prelude::*;

verus! {

/// Answer of the IPC smoke test.
pub struct HelloWorldResponse {
    pub message: String,
    pub app_name: String,
    pub version: String,
    pub offline: bool,
}

/// Answer language chosen in the settings.
#[derive(Debug, Clone, Copy, PartialEq, Eq, Structural)]
pub enum LanguagePreference {
    Auto,
    Uz,
    Ru,
    En,
}

impl Default for LanguagePreference {
    fn default() -> (r: Self)
        ensures
            r == LanguagePreference::Auto,
    {
        LanguagePreference::Auto
    }
}

/// User settings persisted in the app-data directory.
pub struct AppSettings {
    pub model_path: Option<String>,
    pub n_ctx: u32,
    pub n_threads: Option<u32>,
    pub language: LanguagePreference,
    pub max_tokens: u32,
    pub has_seen_onboarding: bool,
}

impl AppSettings {
    /// The settings a fresh installation starts with.
    pub open spec fn spec_is_default(&self) -> bool {
        &&& self.model_path is None
        &&& self.n_ctx == 4096
        &&& self.n_threads is None
        &&& self.language == LanguagePreference::Auto
        &&& self.max_tokens == 1024
        &&& !self.has_seen_onboarding
    }
}

impl Default for AppSettings {
    fn default() -> (r: Self)
        ensures
            r.spec_is_default(),
    {
        AppSettings {
            model_path: None,
            n_ctx: 4096,
            n_threads: None,
            language: LanguagePreference::Auto,
            max_tokens: 1024,
            has_seen_onboarding: false,
        }
    }
}

/// State of the local language model as shown in the settings screen.
pub struct ModelStatus {
    pub loaded: bool,
    pub loading: bool,
    pub waking: bool,
    pub path: Option<String>,
    pub name: Option<String>,
    pub error: Option<String>,
    pub template_source: Option<String>,
}

/// One stored chat session.
pub struct ChatSessionDto {
    pub id: String,
    pub title: String,
    pub created_at: String,
    pub updated_at: String,
}

/// A pair of statements of one document that contradict each other.
pub struct ContradictionItem {
    pub statement_a: String,
    pub statement_b: String,
    pub explanation: String,
}

/// `(statement_a, statement_b, explanation)`.
pub type ItemView = (Seq<char>, Seq<char>, Seq<char>);

impl View for ContradictionItem {
    type V = ItemView;

    open spec fn view(&self) -> ItemView {
        (self.statement_a@, self.statement_b@, self.explanation@)
    }
}

/// The views of a sequence of items.
pub open spec fn item_views(s: Seq<ContradictionItem>) -> Seq<ItemView> {
    Seq::new(s.len(), |i: int| s[i]@)
}

/// Result of the internal-consistency analysis of one document.
pub struct ContradictionReport {
    pub summary: String,
    pub contradictions: Vec<ContradictionItem>,
    pub document_length_chars: usize,
    pub was_chunked: bool,
    pub analysis_failed: bool,
}

} // verus!
