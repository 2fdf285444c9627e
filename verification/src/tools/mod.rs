//! The tools of the server.
use crate::models::opt_str;
use crate::text::{contains_of, glue, same_text, str_contains};
use vstd::prelude::*;
use vstd::string::*;

pub mod answers;
pub mod batch;
pub mod batch_goals;
pub mod batches;
pub mod calls;
pub mod code_actions;
pub mod completions;
pub mod declarations;
pub mod diagnostics;
pub mod file;
pub mod findings;
pub mod goal;
pub mod hover;
pub mod lake_build;
pub mod laws;
pub mod lookups;
pub mod multi_attempt;
pub mod outline;
pub mod profile;
pub mod project_health;
pub mod proof_diff;
pub mod references;
pub mod run_code;
pub mod search;
pub mod symbol_resolve;
pub mod timings;
pub mod toolbox;
pub mod verdicts;
pub mod verify;
pub mod widgets;

verus! {

/// The limit on elaboration, in heartbeats, that is set where no other is
/// wanted.
pub open spec fn heartbeats_of(setting: Option<Seq<char>>) -> Seq<char> {
    match setting {
        Some(s) => s,
        None => "400000"@,
    }
}

/// Some code with a limit on elaboration before it. There is none where the
/// setting is 0, and where the code speaks of the limit itself.
pub open spec fn limited_code(code: Seq<char>, setting: Option<Seq<char>>) -> Seq<char> {
    let limit = heartbeats_of(setting);
    if limit == "0"@ || contains_of(code, "maxHeartbeats"@) {
        code
    } else if code.len() == 0 {
        "set_option maxHeartbeats "@ + limit
    } else {
        "set_option maxHeartbeats "@ + limit + ("\n"@ + code)
    }
}

/// Some code with a limit on elaboration before it; `setting` is the limit that
/// the user wants, where one is wanted.
pub fn prepend_max_heartbeats(code: &str, setting: Option<&str>) -> (r: String)
    ensures
        r@ == limited_code(code@, opt_str(setting)),
{
    let limit = match setting {
        Some(s) => s,
        None => "400000",
    };
    if same_text(limit, "0") || str_contains(code, "maxHeartbeats") {
        return code.to_owned();
    }
    let head = glue("set_option maxHeartbeats ", limit);
    if code.unicode_len() == 0 {
        head
    } else {
        glue(head.as_str(), glue("\n", code).as_str())
    }
}

/// Whatever the setting, code that has the limit before it is left as it is.
pub proof fn lemma_limited_once(
    code: Seq<char>,
    setting: Option<Seq<char>>,
    other: Option<Seq<char>>,
)
    requires
        heartbeats_of(setting) != "0"@,
    ensures
        limited_code(limited_code(code, setting), other) == limited_code(code, setting),
{
    let r = limited_code(code, setting);
    let head = "set_option maxHeartbeats "@;
    let word = "maxHeartbeats"@;
    if !contains_of(code, word) {
        reveal_strlit("set_option maxHeartbeats ");
        reveal_strlit("maxHeartbeats");
        assert(head.subrange(11, 24) =~= word);
        assert(r.subrange(11, 24) =~= head.subrange(11, 24));
        assert(crate::text::occurs_at(r, word, 11));
    }
}

} // verus!
