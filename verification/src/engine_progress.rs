//! Cold-start / wake progress for the language model, embeddings and the vector store.

use vstd::prelude::*;

use crate::text::{chars_of, string_of};

verus! {

/// Name of the progress event sent to the window.
pub const ENGINE_PROGRESS_EVENT: &'static str = "engine-progress";

/// The stages of the engine warm-up.
#[derive(Debug, Clone, Copy, PartialEq, Eq, Structural)]
pub enum EngineStage {
    CheckingFiles,
    LoadingLlm,
    LoadingEmbeddings,
    ConnectingDb,
    Ready,
    Error,
}

/// Machine-readable identifier of a stage.
pub open spec fn spec_stage_id(stage: EngineStage) -> Seq<char> {
    match stage {
        EngineStage::CheckingFiles => "checking_files"@,
        EngineStage::LoadingLlm => "loading_llm"@,
        EngineStage::LoadingEmbeddings => "loading_embeddings"@,
        EngineStage::ConnectingDb => "connecting_db"@,
        EngineStage::Ready => "ready"@,
        EngineStage::Error => "error"@,
    }
}

pub fn stage_id(stage: EngineStage) -> (id: &'static str)
    ensures
        id@ == spec_stage_id(stage),
{
    match stage {
        EngineStage::CheckingFiles => "checking_files",
        EngineStage::LoadingLlm => "loading_llm",
        EngineStage::LoadingEmbeddings => "loading_embeddings",
        EngineStage::ConnectingDb => "connecting_db",
        EngineStage::Ready => "ready",
        EngineStage::Error => "error",
    }
}

/// Progress of the engine warm-up as the window shows it.
pub struct EngineProgress {
    pub stage: EngineStage,
    /// Machine-readable stage id (mirrors `stage`).
    pub stage_id: String,
    /// Overall percent 0–100; `None` while indeterminate.
    pub percent: Option<u8>,
    /// The engines are ready for chat.
    pub ready: bool,
    /// Human-readable error when the stage is `Error`.
    pub error: Option<String>,
}

/// A progress report that carries its own stage id and is ready exactly in
/// the `Ready` stage.
pub open spec fn is_consistent(p: EngineProgress) -> bool {
    &&& p.stage_id@ == spec_stage_id(p.stage)
    &&& p.ready == (p.stage == EngineStage::Ready)
}

/// The report `p` announces `stage` at `percent` with no error.
pub open spec fn is_stage_report(p: EngineProgress, stage: EngineStage, percent: Option<u8>) -> bool {
    &&& is_consistent(p)
    &&& p.stage == stage
    &&& p.percent == percent
    &&& p.error is None
}

impl EngineProgress {
    /// A report of `stage` at `percent`.
    pub fn stage(stage: EngineStage, percent: Option<u8>) -> (r: Self)
        ensures
            is_stage_report(r, stage, percent),
    {
        EngineProgress {
            stage_id: string_of(&chars_of(stage_id(stage))),
            stage,
            percent,
            ready: stage == EngineStage::Ready,
            error: None,
        }
    }

    /// The report that the engines are ready.
    pub fn ready() -> (r: Self)
        ensures
            is_stage_report(r, EngineStage::Ready, Some(100u8)),
            r.ready,
    {
        EngineProgress {
            stage: EngineStage::Ready,
            stage_id: string_of(&chars_of(stage_id(EngineStage::Ready))),
            percent: Some(100),
            ready: true,
            error: None,
        }
    }

    /// The report of a failed warm-up with `message`.
    pub fn error(message: String) -> (r: Self)
        ensures
            is_consistent(r),
            r.stage == EngineStage::Error,
            r.percent is None,
            !r.ready,
            r.error == Some(message),
    {
        EngineProgress {
            stage: EngineStage::Error,
            stage_id: string_of(&chars_of(stage_id(EngineStage::Error))),
            percent: None,
            ready: false,
            error: Some(message),
        }
    }
}

} // verus!
