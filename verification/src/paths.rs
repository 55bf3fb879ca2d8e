//! Where the bundled resources, the app data and the downloaded model live.
//!
//! Paths are handled as strings joined with `/`, a separator that every
//! supported platform accepts.  Which directories exist is asked by the caller;
//! the functions here decide from the answers.

use vstd::prelude::*;

use crate::text::{chars_of, extend_str, string_of};

verus! {

/// Name of the per-user data directory of the application.
pub const APP_DIR_NAME: &'static str = "com.mond.faqihai";

/// File name of the settings inside the app-data directory.
pub const SETTINGS_FILE: &'static str = "settings.json";

/// File name of the chat database inside the app-data directory.
pub const CHAT_DB_FILE: &'static str = "chat.sqlite";

/// File name of the embedding model inside `models/`.
pub const EMBEDDING_ONNX_FILE: &'static str = "multilingual-e5-small.onnx";

/// File name of the tokenizer inside `models/`.
pub const TOKENIZER_FILE: &'static str = "tokenizer.json";

/// Directory name of the legal vector database.
pub const LEXUZ_DB_DIR: &'static str = "lexuz.db";

/// `base` joined with the relative component `comp`.
pub open spec fn spec_join(base: Seq<char>, comp: Seq<char>) -> Seq<char> {
    if base.len() == 0 {
        comp
    } else if base.last() == '/' {
        base + comp
    } else {
        base + seq!['/'] + comp
    }
}

/// Joins the relative component `comp` onto `base`.
pub fn join_path(base: &str, comp: &str) -> (r: String)
    ensures
        r@ == spec_join(base@, comp@),
{
    let b = chars_of(base);
    let mut v: Vec<char> = Vec::new();
    extend_str(&mut v, base);
    if b.len() > 0 && b[b.len() - 1] != '/' {
        v.push('/');
    }
    extend_str(&mut v, comp);
    assert(v@ =~= spec_join(base@, comp@));
    string_of(&v)
}

/// `resources/` under the directory the application was built from.
pub open spec fn spec_manifest_resources(manifest_dir: Seq<char>) -> Seq<char> {
    spec_join(manifest_dir, "resources"@)
}

/// The `resources/` directory under `manifest_dir`, the build-time fallback.
pub fn manifest_resources_dir(manifest_dir: &str) -> (r: String)
    ensures
        r@ == spec_manifest_resources(manifest_dir@),
{
    join_path(manifest_dir, "resources")
}

/// `models/` under a resource root.
pub open spec fn spec_models_dir(root: Seq<char>) -> Seq<char> {
    spec_join(root, "models"@)
}

/// The directory of the bundled models under `root`.
pub fn models_dir(root: &str) -> (r: String)
    ensures
        r@ == spec_models_dir(root@),
{
    join_path(root, "models")
}

/// The bundled embedding model under `root`.
pub fn embedding_onnx_path(root: &str) -> (r: String)
    ensures
        r@ == spec_join(spec_models_dir(root@), EMBEDDING_ONNX_FILE@),
{
    let m = models_dir(root);
    join_path(&m, EMBEDDING_ONNX_FILE)
}

/// The bundled tokenizer under `root`.
pub fn tokenizer_path(root: &str) -> (r: String)
    ensures
        r@ == spec_join(spec_models_dir(root@), TOKENIZER_FILE@),
{
    let m = models_dir(root);
    join_path(&m, TOKENIZER_FILE)
}

/// The bundled legal vector database under `root`.
pub fn lexuz_db_path(root: &str) -> (r: String)
    ensures
        r@ == spec_join(root@, LEXUZ_DB_DIR@),
{
    join_path(root, LEXUZ_DB_DIR)
}

/// The first candidate under which the tokenizer or the vector database was
/// found, looking from index `i` on.
pub open spec fn first_resource_candidate(
    candidates: Seq<Seq<char>>,
    has_tokenizer: Seq<bool>,
    has_lexuz: Seq<bool>,
    i: int,
) -> Option<Seq<char>>
    decreases candidates.len() - i,
{
    if i < 0 || i >= candidates.len() {
        None
    } else if has_tokenizer[i] || has_lexuz[i] {
        Some(candidates[i])
    } else {
        first_resource_candidate(candidates, has_tokenizer, has_lexuz, i + 1)
    }
}

/// The resource root chosen by the application, if any.
pub struct ResourceRoot {
    pub configured: Option<String>,
}

impl ResourceRoot {
    /// No root chosen yet.
    pub fn new() -> (r: Self)
        ensures
            r.configured is None,
    {
        ResourceRoot { configured: None }
    }

    /// Sets the directory that holds `models/` and `lexuz.db/`.
    pub fn set_resource_root(&mut self, path: String)
        ensures
            final(self).configured == Some(path),
    {
        self.configured = Some(path);
    }

    /// The configured root, else `resources/` under `manifest_dir`.
    pub fn resource_root(&self, manifest_dir: &str) -> (r: String)
        ensures
            r@ == match self.configured {
                Some(p) => p@,
                None => spec_manifest_resources(manifest_dir@),
            },
    {
        match &self.configured {
            Some(p) => string_of(&chars_of(p)),
            None => manifest_resources_dir(manifest_dir),
        }
    }

    /// Offers one candidate root, taken when `models/tokenizer.json`
    /// (`has_tokenizer`) or `lexuz.db` (`has_lexuz`) exists under it.
    pub fn offer_resource_candidate(&mut self, candidate: &str, has_tokenizer: bool, has_lexuz: bool) -> (taken: bool)
        ensures
            taken == (has_tokenizer || has_lexuz),
            taken ==> (final(self).configured matches Some(p) && p@ == candidate@),
            !taken ==> final(self).configured == old(self).configured,
    {
        if has_tokenizer || has_lexuz {
            self.set_resource_root(string_of(&chars_of(candidate)));
            true
        } else {
            false
        }
    }

    /// Uses `resources/` under `manifest_dir`, when no candidate was taken.
    pub fn use_manifest_resources(&mut self, manifest_dir: &str)
        ensures
            final(self).configured matches Some(p) && p@ == spec_manifest_resources(manifest_dir@),
    {
        let fallback = manifest_resources_dir(manifest_dir);
        self.set_resource_root(fallback);
    }

    /// Picks the first candidate under which `models/tokenizer.json` or
    /// `lexuz.db` exists (`has_tokenizer[i]`, `has_lexuz[i]` answer that for
    /// `candidates[i]`), else `resources/` under `manifest_dir`.  Candidates
    /// after the first match are not looked at.
    pub fn configure_resource_root_from_candidates(
        &mut self,
        candidates: &Vec<String>,
        has_tokenizer: &Vec<bool>,
        has_lexuz: &Vec<bool>,
        manifest_dir: &str,
    )
        requires
            has_tokenizer@.len() == candidates@.len(),
            has_lexuz@.len() == candidates@.len(),
        ensures
            final(self).configured matches Some(p) && p@ == match first_resource_candidate(
                crate::text::string_views(candidates@),
                has_tokenizer@,
                has_lexuz@,
                0,
            ) {
                Some(c) => c,
                None => spec_manifest_resources(manifest_dir@),
            },
    {
        let ghost cv = crate::text::string_views(candidates@);
        let mut i: usize = 0;
        while i < candidates.len()
            invariant
                i <= candidates.len(),
                has_tokenizer@.len() == candidates@.len(),
                has_lexuz@.len() == candidates@.len(),
                cv == crate::text::string_views(candidates@),
                first_resource_candidate(cv, has_tokenizer@, has_lexuz@, 0)
                    == first_resource_candidate(cv, has_tokenizer@, has_lexuz@, i as int),
            decreases candidates.len() - i,
        {
            assert(cv[i as int] == candidates@[i as int]@);
            if self.offer_resource_candidate(&candidates[i], has_tokenizer[i], has_lexuz[i]) {
                return;
            }
            i = i + 1;
        }
        self.use_manifest_resources(manifest_dir);
    }
}

/// Law: the root chosen is the first qualifying candidate; what is answered
/// for the candidates after it does not matter.
pub proof fn law_first_candidate_wins(
    candidates: Seq<Seq<char>>,
    has_tokenizer: Seq<bool>,
    has_lexuz: Seq<bool>,
    k: int,
)
    requires
        0 <= k < candidates.len(),
        has_tokenizer.len() == candidates.len(),
        has_lexuz.len() == candidates.len(),
        has_tokenizer[k] || has_lexuz[k],
        forall|j: int| 0 <= j < k ==> !(#[trigger] has_tokenizer[j] || has_lexuz[j]),
    ensures
        first_resource_candidate(candidates, has_tokenizer, has_lexuz, 0) == Some(candidates[k]),
{
    lemma_first_candidate_from(candidates, has_tokenizer, has_lexuz, k, 0);
}

proof fn lemma_first_candidate_from(
    candidates: Seq<Seq<char>>,
    has_tokenizer: Seq<bool>,
    has_lexuz: Seq<bool>,
    k: int,
    i: int,
)
    requires
        0 <= i <= k < candidates.len(),
        has_tokenizer.len() == candidates.len(),
        has_lexuz.len() == candidates.len(),
        has_tokenizer[k] || has_lexuz[k],
        forall|j: int| 0 <= j < k ==> !(#[trigger] has_tokenizer[j] || has_lexuz[j]),
    ensures
        first_resource_candidate(candidates, has_tokenizer, has_lexuz, i) == Some(candidates[k]),
    decreases k - i,
{
    if i < k {
        assert(!(has_tokenizer[i] || has_lexuz[i]));
        lemma_first_candidate_from(candidates, has_tokenizer, has_lexuz, k, i + 1);
    }
}

/// A resource path is used as given, whether or not it exists yet.
pub fn resolve_resource(preferred: &str) -> (r: String)
    ensures
        r@ == preferred@,
{
    string_of(&chars_of(preferred))
}

// ---------------------------------------------------------------------------
// The app-data directory.
// ---------------------------------------------------------------------------

/// The app-data directory under the platform data directory `data_dir`
/// (`.` when the platform has none).
pub open spec fn spec_app_data_dir(data_dir: Option<Seq<char>>) -> Seq<char> {
    let base = match data_dir {
        Some(d) => d,
        None => seq!['.'],
    };
    spec_join(base, APP_DIR_NAME@)
}

/// Calls `dirs::data_dir`, the per-user data directory of the platform, as a
/// string.  It depends on the environment, so nothing is stated of it.
#[verifier::external_body]
fn platform_data_dir() -> (r: Option<String>) {
    dirs::data_dir().map(|p| p.display().to_string())
}

/// The app-data directory for a given platform data directory.
pub fn app_data_dir_from(data_dir: Option<String>) -> (r: String)
    ensures
        r@ == spec_app_data_dir(data_dir.deep_view()),
{
    match data_dir {
        Some(d) => join_path(&d, APP_DIR_NAME),
        None => {
            proof {
                reveal_strlit(".");
            }
            assert("."@ =~= seq!['.']);
            join_path(".", APP_DIR_NAME)
        },
    }
}

/// The app-data directory of this user.
pub fn app_data_dir() -> (r: String)
    ensures
        exists|d: Option<Seq<char>>| r@ == spec_app_data_dir(d),
{
    let d = platform_data_dir();
    let ghost w = d.deep_view();
    let r = app_data_dir_from(d);
    assert(r@ == spec_app_data_dir(w));
    r
}

/// The settings file under the app-data directory `app_data`.
pub fn settings_path(app_data: &str) -> (r: String)
    ensures
        r@ == spec_join(app_data@, SETTINGS_FILE@),
{
    join_path(app_data, SETTINGS_FILE)
}

/// The chat database under the app-data directory `app_data`.
pub fn chat_db_path(app_data: &str) -> (r: String)
    ensures
        r@ == spec_join(app_data@, CHAT_DB_FILE@),
{
    join_path(app_data, CHAT_DB_FILE)
}

/// The default model file under the app-data directory `app_data`.
pub fn default_gguf_path(app_data: &str) -> (r: String)
    ensures
        r@ == spec_join(crate::model_download::spec_download_dir(app_data@), crate::model_download::MODEL_FILENAME@),
{
    crate::model_download::default_model_path(app_data)
}

// ---------------------------------------------------------------------------
// Worker threads.
// ---------------------------------------------------------------------------

/// Threads for inference on a machine with `cpus` logical CPUs: all but one,
/// at least one, and one when the count does not fit an `i32`.
pub open spec fn spec_thread_count(cpus: int) -> int {
    let n = if cpus <= 1 {
        1
    } else {
        cpus - 1
    };
    if n <= i32::MAX {
        n
    } else {
        1
    }
}

/// The thread count for `cpus` logical CPUs.
pub fn thread_count_from_cpus(cpus: usize) -> (r: i32)
    ensures
        r == spec_thread_count(cpus as int),
{
    let n: usize = if cpus <= 1 {
        1
    } else {
        cpus - 1
    };
    if n <= 2147483647usize {
        n as i32
    } else {
        1
    }
}

/// Calls `num_cpus::get`, documented to return at least 1.  How many CPUs
/// there are depends on the machine, so no more is stated.
#[verifier::external_body]
fn logical_cpu_count() -> (r: usize)
    ensures
        r >= 1,
{
    num_cpus::get()
}

/// The default number of inference threads on this machine.
pub fn default_thread_count() -> (r: i32)
    ensures
        r >= 1,
        exists|cpus: int| cpus >= 1 && r == spec_thread_count(cpus),
{
    let cpus = logical_cpu_count();
    thread_count_from_cpus(cpus)
}

} // verus!
