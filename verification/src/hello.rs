//! The IPC smoke test.

use vstd::prelude::*;

use crate::models::HelloWorldResponse;
use crate::text::{chars_of, extend_chars, extend_str, string_of, trim, trim_str};

verus! {

/// Name shown in the greeting.
pub const APP_NAME: &'static str = "Faqih AI by MOND";

/// The greeting for `name`: its trimmed form, or `world` when blank.
pub open spec fn spec_greeting(name: Seq<char>) -> Seq<char> {
    let who = if trim(name).len() == 0 {
        "world"@
    } else {
        trim(name)
    };
    "Hello, "@ + who + "! Faqih AI Rust bridge is online (100% offline)."@
}

/// Answers the smoke test for `name`; `version` is the application version.
pub fn hello_world(name: &str, version: &str) -> (r: HelloWorldResponse)
    ensures
        r.message@ == spec_greeting(name@),
        r.app_name@ == APP_NAME@,
        r.version@ == version@,
        r.offline,
{
    let t = trim_str(name);
    let mut v: Vec<char> = Vec::new();
    extend_str(&mut v, "Hello, ");
    if t.len() == 0 {
        extend_str(&mut v, "world");
    } else {
        extend_chars(&mut v, &t);
    }
    extend_str(&mut v, "! Faqih AI Rust bridge is online (100% offline).");
    assert(v@ =~= spec_greeting(name@));
    HelloWorldResponse {
        message: string_of(&v),
        app_name: string_of(&chars_of(APP_NAME)),
        version: string_of(&chars_of(version)),
        offline: true,
    }
}

} // verus!
