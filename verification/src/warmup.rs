//! The staged engine warm-up after start: which progress to report, what to
//! load next and which message a failure shows.  The caller loads the engines
//! and reports each outcome back.

use vstd::prelude::*;

use crate::engine_progress::{is_stage_report, EngineProgress, EngineStage};
use crate::llm::EngineState;
use crate::text::{chars_of, extend_str, string_of};

verus! {

pub const ONNX_MISSING_HEAD: &'static str = "Embedding modeli topilmadi (";

pub const TOKENIZER_MISSING_HEAD: &'static str = "Tokenizer fayli topilmadi (";

pub const RESOURCES_MISSING_TAIL: &'static str = "). Ilovani to‘liq o‘rnating yoki resources/models papkasini tekshiring.";

pub const LEXUZ_MISSING_HEAD: &'static str = "Huquqiy baza topilmadi (";

pub const LEXUZ_MISSING_TAIL: &'static str = "). Ilovani to‘liq o‘rnating yoki lexuz.db ni tiklang.";

pub const EMBEDDINGS_FAILED_HEAD: &'static str = "Embedding modelini yuklab bo‘lmadi: ";

pub const EMBEDDINGS_FAILED_TAIL: &'static str = ". ONNX va tokenizer fayllarini tekshirib, dasturni qayta oching.";

pub const DB_FAILED_HEAD: &'static str = "Huquqiy bazaga ulanilmadi: ";

pub const DB_FAILED_TAIL: &'static str = ". lexuz.db faylini tekshirib, dasturni qayta oching.";

pub const LLM_FAILED_UZ: &'static str = "Til modelini yuklab bo‘lmadi. Model faylini qayta yuklab oling yoki Sozlamalardan boshqa GGUF tanlang.";

pub const LLM_TIMEOUT_UZ: &'static str = "Til modelini yuklash vaqti tugadi. Kompyuter xotirasini bo‘shating va dasturni qayta oching.";

/// Where the warm-up stands.
#[derive(Debug, Clone, Copy, PartialEq, Eq, Structural)]
pub enum WarmupPhase {
    Start,
    CheckFiles,
    LoadEmbeddings,
    OpenDb,
    WaitLlm,
    Done,
    Failed,
}

/// What the caller does next.
pub enum WarmupAction {
    /// Check that the bundled resources are there.
    CheckFiles,
    /// Load the embedding model; start loading the language model first
    /// when `start_llm`.
    LoadEmbeddings { start_llm: bool },
    /// Open the legal vector database.
    OpenDb,
    /// Wait until the language model is loaded.
    WaitLlm,
    /// Nothing left to do.
    Done,
    /// The warm-up failed with this message.
    Fail(String),
}

/// The warm-up of one start.
pub struct Warmup {
    pub phase: WarmupPhase,
    /// A model file is configured and present.
    pub gguf_ok: bool,
    /// The warm-up has ended, well or not.
    pub finished: bool,
}

/// The message for a missing resource file, or none when all are present.
pub open spec fn spec_missing_file_error(
    onnx: Seq<char>,
    onnx_ok: bool,
    tokenizer: Seq<char>,
    tokenizer_ok: bool,
    lexuz: Seq<char>,
    lexuz_ok: bool,
) -> Option<Seq<char>> {
    if !onnx_ok {
        Some(ONNX_MISSING_HEAD@ + onnx + RESOURCES_MISSING_TAIL@)
    } else if !tokenizer_ok {
        Some(TOKENIZER_MISSING_HEAD@ + tokenizer + RESOURCES_MISSING_TAIL@)
    } else if !lexuz_ok {
        Some(LEXUZ_MISSING_HEAD@ + lexuz + LEXUZ_MISSING_TAIL@)
    } else {
        None
    }
}

fn framed(head: &str, middle: &str, tail: &str) -> (r: String)
    ensures
        r@ == head@ + middle@ + tail@,
{
    let mut v: Vec<char> = Vec::new();
    extend_str(&mut v, head);
    extend_str(&mut v, middle);
    extend_str(&mut v, tail);
    string_of(&v)
}

impl Warmup {
    /// A warm-up that has not begun; `gguf_ok` tells whether a model file is
    /// configured and present.
    pub fn new(gguf_ok: bool) -> (r: Self)
        ensures
            r.phase == WarmupPhase::Start,
            r.gguf_ok == gguf_ok,
            !r.finished,
    {
        Warmup { phase: WarmupPhase::Start, gguf_ok, finished: false }
    }

    /// Begins: report the file check at 8%.
    pub fn begin(&mut self) -> (r: (Vec<EngineProgress>, WarmupAction))
        requires
            old(self).phase == WarmupPhase::Start,
        ensures
            final(self).phase == WarmupPhase::CheckFiles,
            final(self).gguf_ok == old(self).gguf_ok,
            final(self).finished == old(self).finished,
            r.0@.len() == 1,
            is_stage_report(r.0@[0], EngineStage::CheckingFiles, Some(8u8)),
            r.1 is CheckFiles,
    {
        self.phase = WarmupPhase::CheckFiles;
        let mut p: Vec<EngineProgress> = Vec::new();
        p.push(EngineProgress::stage(EngineStage::CheckingFiles, Some(8)));
        (p, WarmupAction::CheckFiles)
    }

    /// The resource check came back: the embedding model and tokenizer must
    /// be files and the vector database must exist.  Then the language model
    /// is started (20%) when configured, and the embeddings are loaded (45%).
    pub fn files_checked(
        &mut self,
        onnx_path: &str,
        onnx_ok: bool,
        tokenizer_path: &str,
        tokenizer_ok: bool,
        lexuz_path: &str,
        lexuz_ok: bool,
    ) -> (r: (Vec<EngineProgress>, WarmupAction))
        requires
            old(self).phase == WarmupPhase::CheckFiles,
        ensures
            final(self).gguf_ok == old(self).gguf_ok,
            match spec_missing_file_error(
                onnx_path@,
                onnx_ok,
                tokenizer_path@,
                tokenizer_ok,
                lexuz_path@,
                lexuz_ok,
            ) {
                Some(m) => {
                    &&& final(self).phase == WarmupPhase::Failed
                    &&& final(self).finished
                    &&& r.0@.len() == 0
                    &&& r.1 matches WarmupAction::Fail(e) && e@ == m
                },
                None => {
                    &&& final(self).phase == WarmupPhase::LoadEmbeddings
                    &&& final(self).finished == old(self).finished
                    &&& r.1 matches WarmupAction::LoadEmbeddings { start_llm } && start_llm
                        == old(self).gguf_ok
                    &&& old(self).gguf_ok ==> r.0@.len() == 2 && is_stage_report(
                        r.0@[0],
                        EngineStage::LoadingLlm,
                        Some(20u8),
                    ) && is_stage_report(r.0@[1], EngineStage::LoadingEmbeddings, Some(45u8))
                    &&& !old(self).gguf_ok ==> r.0@.len() == 1 && is_stage_report(
                        r.0@[0],
                        EngineStage::LoadingEmbeddings,
                        Some(45u8),
                    )
                },
            },
    {
        let mut p: Vec<EngineProgress> = Vec::new();
        if !onnx_ok {
            self.phase = WarmupPhase::Failed;
            self.finished = true;
            return (p, WarmupAction::Fail(framed(ONNX_MISSING_HEAD, onnx_path, RESOURCES_MISSING_TAIL)));
        }
        if !tokenizer_ok {
            self.phase = WarmupPhase::Failed;
            self.finished = true;
            return (
                p,
                WarmupAction::Fail(framed(TOKENIZER_MISSING_HEAD, tokenizer_path, RESOURCES_MISSING_TAIL)),
            );
        }
        if !lexuz_ok {
            self.phase = WarmupPhase::Failed;
            self.finished = true;
            return (p, WarmupAction::Fail(framed(LEXUZ_MISSING_HEAD, lexuz_path, LEXUZ_MISSING_TAIL)));
        }
        if self.gguf_ok {
            p.push(EngineProgress::stage(EngineStage::LoadingLlm, Some(20)));
        }
        p.push(EngineProgress::stage(EngineStage::LoadingEmbeddings, Some(45)));
        self.phase = WarmupPhase::LoadEmbeddings;
        (p, WarmupAction::LoadEmbeddings { start_llm: self.gguf_ok })
    }

    /// The embedding model was loaded (or failed with `Err`); next the vector
    /// database is opened (75%).
    pub fn embeddings_loaded(&mut self, outcome: Result<(), String>) -> (r: (Vec<EngineProgress>, WarmupAction))
        requires
            old(self).phase == WarmupPhase::LoadEmbeddings,
        ensures
            final(self).gguf_ok == old(self).gguf_ok,
            match outcome {
                Err(e) => {
                    &&& final(self).phase == WarmupPhase::Failed
                    &&& final(self).finished
                    &&& r.0@.len() == 0
                    &&& r.1 matches WarmupAction::Fail(m) && m@ == EMBEDDINGS_FAILED_HEAD@ + e@
                        + EMBEDDINGS_FAILED_TAIL@
                },
                Ok(()) => {
                    &&& final(self).phase == WarmupPhase::OpenDb
                    &&& final(self).finished == old(self).finished
                    &&& r.0@.len() == 1
                    &&& is_stage_report(r.0@[0], EngineStage::ConnectingDb, Some(75u8))
                    &&& r.1 is OpenDb
                },
            },
    {
        let mut p: Vec<EngineProgress> = Vec::new();
        match outcome {
            Err(e) => {
                self.phase = WarmupPhase::Failed;
                self.finished = true;
                (p, WarmupAction::Fail(framed(EMBEDDINGS_FAILED_HEAD, &e, EMBEDDINGS_FAILED_TAIL)))
            },
            Ok(()) => {
                self.phase = WarmupPhase::OpenDb;
                p.push(EngineProgress::stage(EngineStage::ConnectingDb, Some(75)));
                (p, WarmupAction::OpenDb)
            },
        }
    }

    /// The vector database was opened (or failed with `Err`).  Without a model
    /// file the warm-up ends here, waiting for the download (90%); otherwise it
    /// waits for the language model (88%).
    pub fn db_opened(&mut self, outcome: Result<(), String>) -> (r: (Vec<EngineProgress>, WarmupAction))
        requires
            old(self).phase == WarmupPhase::OpenDb,
        ensures
            final(self).gguf_ok == old(self).gguf_ok,
            match outcome {
                Err(e) => {
                    &&& final(self).phase == WarmupPhase::Failed
                    &&& final(self).finished
                    &&& r.0@.len() == 0
                    &&& r.1 matches WarmupAction::Fail(m) && m@ == DB_FAILED_HEAD@ + e@ + DB_FAILED_TAIL@
                },
                Ok(()) => {
                    &&& r.0@.len() == 1
                    &&& !old(self).gguf_ok ==> {
                        &&& final(self).phase == WarmupPhase::Done
                        &&& final(self).finished
                        &&& is_stage_report(r.0@[0], EngineStage::LoadingLlm, Some(90u8))
                        &&& r.1 is Done
                    }
                    &&& old(self).gguf_ok ==> {
                        &&& final(self).phase == WarmupPhase::WaitLlm
                        &&& final(self).finished == old(self).finished
                        &&& is_stage_report(r.0@[0], EngineStage::LoadingLlm, Some(88u8))
                        &&& r.1 is WaitLlm
                    }
                },
            },
    {
        let mut p: Vec<EngineProgress> = Vec::new();
        match outcome {
            Err(e) => {
                self.phase = WarmupPhase::Failed;
                self.finished = true;
                (p, WarmupAction::Fail(framed(DB_FAILED_HEAD, &e, DB_FAILED_TAIL)))
            },
            Ok(()) => {
                if !self.gguf_ok {
                    self.phase = WarmupPhase::Done;
                    self.finished = true;
                    p.push(EngineProgress::stage(EngineStage::LoadingLlm, Some(90)));
                    (p, WarmupAction::Done)
                } else {
                    self.phase = WarmupPhase::WaitLlm;
                    p.push(EngineProgress::stage(EngineStage::LoadingLlm, Some(88)));
                    (p, WarmupAction::WaitLlm)
                }
            },
        }
    }

    /// The language model became ready (or failed with `Err`): the warm-up
    /// ends, reporting ready on success.
    pub fn llm_ready(&mut self, outcome: Result<(), String>) -> (r: (Vec<EngineProgress>, WarmupAction))
        requires
            old(self).phase == WarmupPhase::WaitLlm,
        ensures
            final(self).gguf_ok == old(self).gguf_ok,
            final(self).finished,
            match outcome {
                Err(e) => {
                    &&& final(self).phase == WarmupPhase::Failed
                    &&& r.0@.len() == 0
                    &&& r.1 matches WarmupAction::Fail(m) && m@ == e@
                },
                Ok(()) => {
                    &&& final(self).phase == WarmupPhase::Done
                    &&& r.0@.len() == 1
                    &&& is_stage_report(r.0@[0], EngineStage::Ready, Some(100u8))
                    &&& r.1 is Done
                },
            },
    {
        self.finished = true;
        let mut p: Vec<EngineProgress> = Vec::new();
        match outcome {
            Err(e) => {
                self.phase = WarmupPhase::Failed;
                (p, WarmupAction::Fail(e))
            },
            Ok(()) => {
                self.phase = WarmupPhase::Done;
                p.push(EngineProgress::ready());
                (p, WarmupAction::Done)
            },
        }
    }
}

/// One poll while waiting for the language model at start: `None` keeps
/// waiting; the deadline comes first, then a loaded model, then a load that
/// stopped without the model (its recorded error, or a generic message).
pub fn poll_llm_ready(engine: &EngineState, timed_out: bool) -> (r: Option<Result<(), String>>)
    ensures
        timed_out ==> (r matches Some(Err(m)) && m@ == LLM_TIMEOUT_UZ@),
        !timed_out && engine.loaded ==> r matches Some(Ok(())),
        !timed_out && !engine.loaded && !engine.loading ==> (r matches Some(Err(m)) && m@
            == match engine.last_error {
            Some(e) => e@,
            None => LLM_FAILED_UZ@,
        }),
        !timed_out && !engine.loaded && engine.loading ==> r is None,
{
    if timed_out {
        return Some(Err(string_of(&chars_of(LLM_TIMEOUT_UZ))));
    }
    if engine.loaded {
        return Some(Ok(()));
    }
    if !engine.loading {
        let m = match &engine.last_error {
            Some(e) => string_of(&chars_of(e)),
            None => string_of(&chars_of(LLM_FAILED_UZ)),
        };
        return Some(Err(m));
    }
    None
}

} // verus!
