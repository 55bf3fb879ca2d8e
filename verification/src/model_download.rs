//! First-run download of the default model: where it goes, when it counts as
//! present, and the decisions of a resumable download.  The caller performs
//! the file and network work and hands the outcomes to these functions.

use vstd::prelude::*;

use crate::models::AppSettings;
use crate::paths::{join_path, spec_join};
use crate::text::{chars_eq, chars_of, decimal, extend_str, push_decimal, string_of};

verus! {

/// Where the default model is fetched from.
pub const MODEL_DOWNLOAD_URL: &'static str = "https://huggingface.co/bartowski/Qwen2.5-1.5B-Instruct-GGUF/resolve/main/Qwen2.5-1.5B-Instruct-Q4_K_M.gguf";

/// File name of the default model.
pub const MODEL_FILENAME: &'static str = "Qwen2.5-1.5B-Instruct-Q4_K_M.gguf";

/// File name of the download in progress.
pub const PARTIAL_FILENAME: &'static str = "Qwen2.5-1.5B-Instruct-Q4_K_M.gguf.partial";

/// Exact size of the default model file.
pub const EXPECTED_MODEL_BYTES: u64 = 986048768;

/// Name of the progress event of the download.
pub const MODEL_DOWNLOAD_PROGRESS_EVENT: &'static str = "model-download-progress";

/// What the setup screen shows about the default model.
pub struct ModelSetupStatus {
    pub ready: bool,
    pub downloading: bool,
    pub expected_bytes: u64,
    pub local_path: Option<String>,
    pub partial_bytes: u64,
}

/// `models/` under the app-data directory.
pub open spec fn spec_download_dir(app_data: Seq<char>) -> Seq<char> {
    spec_join(app_data, "models"@)
}

/// The directory the model is downloaded into.
pub fn download_dir(app_data: &str) -> (r: String)
    ensures
        r@ == spec_download_dir(app_data@),
{
    join_path(app_data, "models")
}

/// Where the downloaded model lives under the app-data directory `app_data`.
pub fn default_model_path(app_data: &str) -> (r: String)
    ensures
        r@ == spec_join(spec_download_dir(app_data@), MODEL_FILENAME@),
{
    let d = download_dir(app_data);
    join_path(&d, MODEL_FILENAME)
}

/// Where the download in progress is written.
pub fn partial_model_path(app_data: &str) -> (r: String)
    ensures
        r@ == spec_join(spec_download_dir(app_data@), PARTIAL_FILENAME@),
{
    let d = download_dir(app_data);
    join_path(&d, PARTIAL_FILENAME)
}

/// The first bytes of every GGUF file.
pub open spec fn gguf_magic() -> Seq<u8> {
    seq![0x47u8, 0x47u8, 0x55u8, 0x46u8]
}

/// A model file is valid when it has exactly the expected size and starts
/// with the GGUF magic.  `size` is its size (`None` when it could not be
/// read), `magic` its first four bytes (`None` when they could not be read).
pub open spec fn spec_valid_model_file(size: Option<u64>, magic: Option<Seq<u8>>) -> bool {
    &&& size == Some(EXPECTED_MODEL_BYTES)
    &&& magic == Some(gguf_magic())
}

/// Decides whether a model file is valid from what was read of it.
pub fn is_valid_model_file(size: Option<u64>, magic: Option<Vec<u8>>) -> (r: bool)
    ensures
        r == spec_valid_model_file(
            size,
            match magic {
                Some(m) => Some(m@),
                None => None,
            },
        ),
{
    match size {
        Some(n) => {
            if n != EXPECTED_MODEL_BYTES {
                return false;
            }
        },
        None => {
            return false;
        },
    }
    match magic {
        Some(m) => {
            if m.len() != 4 {
                return false;
            }
            let ok = m[0] == 0x47u8 && m[1] == 0x47u8 && m[2] == 0x55u8 && m[3] == 0x46u8;
            assert(ok <==> m@ =~= gguf_magic());
            ok
        },
        None => false,
    }
}

/// If the settings have no usable model but the default download is valid,
/// points them at it.  `configured_valid` tells whether the configured model
/// file (if any) is a valid model file.  Returns whether the settings changed.
pub fn hydrate_settings_from_default_model(
    settings: &mut AppSettings,
    configured_valid: bool,
    default_path: &str,
    default_valid: bool,
) -> (changed: bool)
    ensures
        old(settings).model_path is Some && configured_valid ==> !changed && *final(settings)
            == *old(settings),
        !(old(settings).model_path is Some && configured_valid) && !default_valid ==> !changed
            && *final(settings) == *old(settings),
        !(old(settings).model_path is Some && configured_valid) && default_valid ==> {
            &&& changed
            &&& final(settings).model_path matches Some(p) && p@ == default_path@
            &&& final(settings).n_ctx == old(settings).n_ctx
            &&& final(settings).n_threads == old(settings).n_threads
            &&& final(settings).language == old(settings).language
            &&& final(settings).max_tokens == old(settings).max_tokens
            &&& final(settings).has_seen_onboarding == old(settings).has_seen_onboarding
        },
{
    if settings.model_path.is_some() && configured_valid {
        return false;
    }
    if default_valid {
        settings.model_path = Some(string_of(&chars_of(default_path)));
        return true;
    }
    false
}

/// The first-run setup is needed when neither the configured model nor the
/// default download is a valid model file.
pub fn model_needs_setup(settings: &AppSettings, configured_valid: bool, default_valid: bool) -> (r: bool)
    ensures
        r == !((settings.model_path is Some && configured_valid) || default_valid),
{
    if settings.model_path.is_some() && configured_valid {
        return false;
    }
    !default_valid
}

/// What the setup screen shows: the configured model when it is valid, else
/// the default download when it is valid.
pub fn setup_status(
    settings: &AppSettings,
    configured_valid: bool,
    default_path: &str,
    default_valid: bool,
    partial_bytes: u64,
    downloading: bool,
) -> (r: ModelSetupStatus)
    ensures
        r.expected_bytes == EXPECTED_MODEL_BYTES,
        r.partial_bytes == partial_bytes,
        r.downloading == downloading,
        r.ready == r.local_path is Some,
        settings.model_path is Some && configured_valid ==> (r.local_path matches Some(p)
            && p@ == settings.model_path->0@),
        !(settings.model_path is Some && configured_valid) && default_valid ==> (r.local_path matches Some(p)
            && p@ == default_path@),
        !(settings.model_path is Some && configured_valid) && !default_valid ==> r.local_path is None,
{
    let local_path = match &settings.model_path {
        Some(p) if configured_valid => Some(string_of(&chars_of(p))),
        _ => if default_valid {
            Some(string_of(&chars_of(default_path)))
        } else {
            None
        },
    };
    ModelSetupStatus {
        ready: local_path.is_some(),
        downloading,
        expected_bytes: EXPECTED_MODEL_BYTES,
        local_path,
        partial_bytes,
    }
}

// ---------------------------------------------------------------------------
// User-facing errors.
// ---------------------------------------------------------------------------

pub const NETWORK_ERROR_HEAD: &'static str = "Internetga ulanishda muammo yuz berdi. Iltimos, aloqani tekshirib, qayta urinib ko‘ring.\n(";

pub const DISK_ERROR_HEAD: &'static str = "Diskda yetarli joy yo‘q yoki faylni yozib bo‘lmadi. Bo‘sh joy ajratib, qayta urinib ko‘ring.\n(";

pub const VERIFY_ERROR_HEAD: &'static str = "Yuklab olingan AI modeli tekshiruvdan o‘tmadi. Qayta yuklab olish kerak.\n(";

pub const BUSY_ERROR: &'static str = "Model yuklab olinmoqda. Iltimos, kuting.";

pub const OTHER_ERROR_HEAD: &'static str = "Modelni yuklab olishda xatolik. Qayta urinib ko‘ring.\n(";

/// The message shown for a download failure of the given kind.
pub open spec fn spec_friendly_error(kind: Seq<char>, detail: Seq<char>) -> Seq<char> {
    if kind == "network"@ {
        NETWORK_ERROR_HEAD@ + detail + ")"@
    } else if kind == "disk"@ {
        DISK_ERROR_HEAD@ + detail + ")"@
    } else if kind == "verify"@ {
        VERIFY_ERROR_HEAD@ + detail + ")"@
    } else if kind == "busy"@ {
        BUSY_ERROR@
    } else {
        OTHER_ERROR_HEAD@ + detail + ")"@
    }
}

fn str_is(s: &Vec<char>, lit: &str) -> (r: bool)
    ensures
        r == (s@ == lit@),
{
    chars_eq(s, &chars_of(lit))
}

/// The message shown for a download failure of kind `kind` (`network`,
/// `disk`, `verify`, `busy` or anything else) with the technical `detail`.
pub fn friendly_error(kind: &str, detail: &str) -> (r: String)
    ensures
        r@ == spec_friendly_error(kind@, detail@),
{
    proof {
        reveal_strlit("busy");
        reveal_strlit("network");
        reveal_strlit("disk");
        reveal_strlit("verify");
    }
    let k = chars_of(kind);
    let mut v: Vec<char> = Vec::new();
    if str_is(&k, "busy") {
        assert(k@ != "network"@ && k@ != "disk"@ && k@ != "verify"@) by {
            assert(k@[0] == 'b');
            assert("network"@[0] == 'n');
            assert("disk"@[0] == 'd');
            assert("verify"@[0] == 'v');
        }
        extend_str(&mut v, BUSY_ERROR);
        return string_of(&v);
    }
    if str_is(&k, "network") {
        extend_str(&mut v, NETWORK_ERROR_HEAD);
    } else if str_is(&k, "disk") {
        extend_str(&mut v, DISK_ERROR_HEAD);
    } else if str_is(&k, "verify") {
        extend_str(&mut v, VERIFY_ERROR_HEAD);
    } else {
        extend_str(&mut v, OTHER_ERROR_HEAD);
    }
    extend_str(&mut v, detail);
    extend_str(&mut v, ")");
    string_of(&v)
}

/// Whether a download is running; at most one runs at a time.
pub struct DownloadFlag {
    pub in_progress: bool,
}

/// Claiming the download slot: always held afterwards; the claim succeeds
/// exactly when it was free.
pub open spec fn spec_try_begin(f: DownloadFlag) -> (DownloadFlag, bool) {
    (DownloadFlag { in_progress: true }, !f.in_progress)
}

/// Releasing the download slot.
pub open spec fn spec_end(f: DownloadFlag) -> DownloadFlag {
    DownloadFlag { in_progress: false }
}

impl DownloadFlag {
    /// No download running.
    pub fn new() -> (r: Self)
        ensures
            !r.in_progress,
    {
        DownloadFlag { in_progress: false }
    }

    /// Claims the download slot; refused while another download runs.
    pub fn try_begin(&mut self) -> (r: Result<(), String>)
        ensures
            *final(self) == spec_try_begin(*old(self)).0,
            (r is Ok) == spec_try_begin(*old(self)).1,
            final(self).in_progress,
            old(self).in_progress ==> (r matches Err(e) && e@ == spec_friendly_error(
                "busy"@,
                "already running"@,
            )),
            !old(self).in_progress ==> r is Ok,
    {
        if self.in_progress {
            return Err(friendly_error("busy", "already running"));
        }
        self.in_progress = true;
        Ok(())
    }

    /// Releases the download slot.
    pub fn end(&mut self)
        ensures
            *final(self) == spec_end(*old(self)),
            !final(self).in_progress,
    {
        self.in_progress = false;
    }

    /// Whether a download is running.
    pub fn download_busy(&self) -> (r: bool)
        ensures
            r == self.in_progress,
    {
        self.in_progress
    }
}

// ---------------------------------------------------------------------------
// The resumable download.
// ---------------------------------------------------------------------------

/// Where a download resumes, given the size of the partial file (`None` when
/// there is none): a partial file at least as large as the model is stale and
/// is discarded.
pub open spec fn spec_resume(partial_len: Option<u64>) -> (u64, bool) {
    let existing = match partial_len {
        Some(n) => n,
        None => 0u64,
    };
    if existing >= EXPECTED_MODEL_BYTES {
        (0u64, true)
    } else {
        (existing, false)
    }
}

/// `(offset, discard_partial)` for a download with the given partial file.
pub fn resume_offset(partial_len: Option<u64>) -> (r: (u64, bool))
    ensures
        r == spec_resume(partial_len),
        r.0 < EXPECTED_MODEL_BYTES,
{
    let existing = match partial_len {
        Some(n) => n,
        None => 0,
    };
    if existing >= EXPECTED_MODEL_BYTES {
        (0, true)
    } else {
        (existing, false)
    }
}

/// The `Range` header value that resumes at `existing` bytes.
pub fn range_header_value(existing: u64) -> (r: Option<String>)
    ensures
        existing == 0 ==> r is None,
        existing > 0 ==> (r matches Some(h) && h@ == "bytes="@ + decimal(existing as nat) + "-"@),
{
    if existing == 0 {
        return None;
    }
    let mut v: Vec<char> = Vec::new();
    extend_str(&mut v, "bytes=");
    push_decimal(&mut v, existing);
    extend_str(&mut v, "-");
    Some(string_of(&v))
}

/// What `StatusCode`'s `Display` prints for a status code: the number and
/// its reason phrase.
pub uninterp spec fn spec_status_display(code: u16) -> Seq<char>;

/// Calls `reqwest::StatusCode::from_u16` and prints the code with `Display`,
/// which writes the number, a space and the reason phrase; the reason-phrase
/// table is only named.
#[verifier::external_body]
fn status_display(code: u16) -> (r: String)
    requires
        100 <= code <= 999,
    ensures
        r@ == spec_status_display(code),
        r@.len() > decimal(code as nat).len(),
        r@.take(decimal(code as nat).len() + 1int) == decimal(code as nat).push(' '),
{
    match reqwest::StatusCode::from_u16(code) {
        Ok(s) => format!("{}", s),
        Err(_) => String::new(),
    }
}

/// What to do with the server's answer to the download request.
pub enum ResponseAction {
    /// Discard the partial file and start over from zero.
    Restart,
    /// Write the body.
    Proceed,
    /// Give up with this message.
    Fail(String),
}

/// Decides on the server's status for a request resumed at `existing` bytes:
/// 416 or an ignored range start over; any other non-2xx status fails.
pub fn response_action(status: u16, existing: u64) -> (r: ResponseAction)
    requires
        100 <= status <= 999,
    ensures
        status == 416 ==> r is Restart,
        status != 416 && existing > 0 && status == 200 ==> r is Restart,
        status != 416 && !(existing > 0 && status == 200) && 200 <= status < 300 ==> r is Proceed,
        status != 416 && !(200 <= status < 300) ==> (r matches ResponseAction::Fail(m) && m@
            == spec_friendly_error("network"@, "server status "@ + spec_status_display(status))
            && spec_status_display(status).take(decimal(status as nat).len() + 1int) == decimal(
            status as nat,
        ).push(' ')),
{
    if status == 416 {
        return ResponseAction::Restart;
    }
    if existing > 0 && status == 200 {
        return ResponseAction::Restart;
    }
    if 200 <= status && status < 300 {
        return ResponseAction::Proceed;
    }
    let shown = status_display(status);
    let mut d: Vec<char> = Vec::new();
    extend_str(&mut d, "server status ");
    extend_str(&mut d, &shown);
    let detail = string_of(&d);
    ResponseAction::Fail(friendly_error("network", &detail))
}

/// The size the finished file will have: from the `Content-Length` (added to
/// the resume offset for a 206 answer), snapped to the known size when it is
/// within 1 KiB of it; the known size when the length is unknown or zero.
pub open spec fn spec_total_bytes(partial_content: bool, existing: u64, content_length: Option<u64>) -> u64 {
    let from_headers: int = match content_length {
        Some(len) => if partial_content {
            existing + len
        } else {
            len as int
        },
        None => EXPECTED_MODEL_BYTES as int,
    };
    let diff = from_headers - EXPECTED_MODEL_BYTES;
    if -1024 < diff < 1024 {
        EXPECTED_MODEL_BYTES
    } else if from_headers > 0 {
        from_headers as u64
    } else {
        EXPECTED_MODEL_BYTES
    }
}

/// The total size used for progress reports.
pub fn total_bytes(partial_content: bool, existing: u64, content_length: Option<u64>) -> (r: u64)
    requires
        partial_content && content_length is Some ==> existing + content_length->0 <= u64::MAX,
    ensures
        r == spec_total_bytes(partial_content, existing, content_length),
{
    let from_headers: u64 = match content_length {
        Some(len) => if partial_content {
            existing + len
        } else {
            len
        },
        None => EXPECTED_MODEL_BYTES,
    };
    let near = if from_headers >= EXPECTED_MODEL_BYTES {
        from_headers - EXPECTED_MODEL_BYTES < 1024
    } else {
        EXPECTED_MODEL_BYTES - from_headers < 1024
    };
    if near {
        EXPECTED_MODEL_BYTES
    } else if from_headers > 0 {
        from_headers
    } else {
        EXPECTED_MODEL_BYTES
    }
}

/// Counts a written chunk of `n` bytes; `timer_due` tells whether the
/// progress interval has passed.  Returns the new byte count and whether to
/// report progress now (interval passed, or everything is in).
pub fn record_chunk(downloaded: u64, n: u64, total: u64, timer_due: bool) -> (r: (u64, bool))
    requires
        downloaded + n <= u64::MAX,
    ensures
        r.0 == downloaded + n,
        r.1 == (timer_due || downloaded + n >= total),
{
    let d = downloaded + n;
    (d, timer_due || d >= total)
}

/// The byte count shown in a progress report, never above the total.
pub fn reported_bytes(downloaded: u64, total: u64) -> (r: u64)
    ensures
        r == if downloaded < total {
            downloaded
        } else {
            total
        },
{
    if downloaded < total {
        downloaded
    } else {
        total
    }
}

/// Bytes still to come.
pub fn remaining_bytes(downloaded: u64, total: u64) -> (r: u64)
    ensures
        r == if downloaded < total {
            total - downloaded
        } else {
            0
        },
{
    if downloaded < total {
        total - downloaded
    } else {
        0
    }
}

/// The finished partial file must have exactly the model's size.
pub fn verify_final_size(final_len: u64) -> (r: Result<(), String>)
    ensures
        final_len == EXPECTED_MODEL_BYTES ==> r is Ok,
        final_len != EXPECTED_MODEL_BYTES ==> (r matches Err(e) && e@ == spec_friendly_error(
            "verify"@,
            "size "@ + decimal(final_len as nat) + ", expected "@ + decimal(
                EXPECTED_MODEL_BYTES as nat,
            ),
        )),
{
    if final_len == EXPECTED_MODEL_BYTES {
        return Ok(());
    }
    let mut d: Vec<char> = Vec::new();
    extend_str(&mut d, "size ");
    push_decimal(&mut d, final_len);
    extend_str(&mut d, ", expected ");
    push_decimal(&mut d, EXPECTED_MODEL_BYTES);
    let detail = string_of(&d);
    Err(friendly_error("verify", &detail))
}

/// The error when the renamed file fails the final check.
pub fn magic_check_failed() -> (r: String)
    ensures
        r@ == spec_friendly_error("verify"@, "magic/size check failed"@),
{
    friendly_error("verify", "magic/size check failed")
}

/// Law: the download slot is busy exactly between a successful claim and its
/// release: a claim on a free slot succeeds and makes it busy, a second claim
/// is refused and leaves it busy, and after the release the slot is free and
/// the next claim succeeds.
pub proof fn law_download_slot(f: DownloadFlag)
    requires
        !f.in_progress,
    ensures
        ({
            let (held, ok) = spec_try_begin(f);
            let (again, ok2) = spec_try_begin(held);
            let freed = spec_end(held);
            &&& ok && held.in_progress
            &&& !ok2 && again.in_progress
            &&& !freed.in_progress
            &&& spec_try_begin(freed).1
        }),
{
}


/// One event in the life of download calls: call `id` starts (and tries to
/// claim the slot), or call `id` returns (releasing the slot when it holds it;
/// a call refused as busy returns without touching it).
pub enum DownloadEvent {
    Begin(u64),
    Return(u64),
}

/// The slot after one event, with the call that holds it.
pub open spec fn slot_step(st: (DownloadFlag, Option<u64>), ev: DownloadEvent) -> (DownloadFlag, Option<u64>) {
    match ev {
        DownloadEvent::Begin(id) => {
            let (f, ok) = spec_try_begin(st.0);
            (f, if ok { Some(id) } else { st.1 })
        },
        DownloadEvent::Return(id) => {
            if st.1 == Some(id) {
                (spec_end(st.0), None)
            } else {
                st
            }
        },
    }
}

/// The slot after a history of events, starting free.
pub open spec fn slot_run(events: Seq<DownloadEvent>) -> (DownloadFlag, Option<u64>)
    decreases events.len(),
{
    if events.len() == 0 {
        (DownloadFlag { in_progress: false }, None)
    } else {
        slot_step(slot_run(events.drop_last()), events.last())
    }
}

/// Call `id` started at `i` and has not returned since.
pub open spec fn running_since(events: Seq<DownloadEvent>, id: u64, i: int) -> bool {
    &&& 0 <= i < events.len()
    &&& events[i] == DownloadEvent::Begin(id)
    &&& forall|j: int| i < j < events.len() ==> #[trigger] events[j] != DownloadEvent::Return(id)
}

/// A call that started at `i` has returned later.
pub open spec fn returned_after(events: Seq<DownloadEvent>, i: int) -> bool {
    match events[i] {
        DownloadEvent::Begin(id) => exists|j: int|
            i < j < events.len() && #[trigger] events[j] == DownloadEvent::Return(id),
        DownloadEvent::Return(_) => true,
    }
}

/// Law: the download flag is set exactly while the call holding it runs: it
/// is held by some call that has started and not yet returned, and it is free
/// once every call that started has returned.
pub proof fn law_download_busy_while_running(events: Seq<DownloadEvent>)
    ensures
        slot_run(events).0.in_progress == slot_run(events).1 is Some,
        slot_run(events).1 matches Some(id) ==> exists|i: int| running_since(events, id, i),
        (forall|i: int| 0 <= i < events.len() ==> #[trigger] returned_after(events, i))
            ==> !slot_run(events).0.in_progress,
    decreases events.len(),
{
    if events.len() > 0 {
        let init = events.drop_last();
        let n = events.len() - 1;
        law_download_busy_while_running(init);
        let st = slot_run(init);
        if let Some(h) = slot_run(events).1 {
            let ev = events.last();
            match ev {
                DownloadEvent::Begin(id) => {
                    if !st.0.in_progress {
                        assert(running_since(events, id, n));
                    } else {
                        let i = choose|i: int| running_since(init, h, i);
                        assert forall|j: int| i < j < events.len() implies #[trigger] events[j]
                            != DownloadEvent::Return(h) by {
                            if j < n {
                                assert(events[j] == init[j]);
                            }
                        }
                        assert(events[i] == init[i]);
                        assert(running_since(events, h, i));
                    }
                },
                DownloadEvent::Return(id) => {
                    let i = choose|i: int| running_since(init, h, i);
                    assert forall|j: int| i < j < events.len() implies #[trigger] events[j]
                        != DownloadEvent::Return(h) by {
                        if j < n {
                            assert(events[j] == init[j]);
                        }
                    }
                    assert(events[i] == init[i]);
                    assert(running_since(events, h, i));
                },
            }
        }
        if forall|i: int| 0 <= i < events.len() ==> #[trigger] returned_after(events, i) {
            if let Some(h) = slot_run(events).1 {
                let i = choose|i: int| running_since(events, h, i);
                assert(returned_after(events, i));
                let j = choose|j: int| i < j < events.len() && #[trigger] events[j] == DownloadEvent::Return(h);
                assert(false);
            }
        }
    }
}

} // verus!
