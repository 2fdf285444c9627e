//! `lean_build`: builds the project.
use crate::error::{result_view, ErrorView, LeanToolError};
use crate::lists::{lemma_filter_map_next, lemma_take_all};
use crate::models::{opt_text, BuildResult, BuildResultView};
use crate::patterns::{all_matches, group, group_of, match_texts, regex_matches};
use crate::protocol::{
    begins, Call, Dialogue, Reply, ReplyView, Request, RequestView, Turn, Waiting, Waits,
};
use crate::text::{
    chars_of, contains_of, glue, glue3, join, join_of, lines, lines_of, lowercase_of, number_of,
    owned, parse_number, str_contains, strs, text_of, texts, to_lower, trim, trim_of,
};
use vstd::prelude::*;
use vstd::slice::slice_subrange;
use vstd::string::*;

verus! {

// ---------------------------------------------------------------------------
// The log of a build
// ---------------------------------------------------------------------------

/// The progress of a build; the groups are how much is done and how much there
/// is.
pub const PROGRESS_PATTERN: &'static str = r"\[(\d+)/(\d+)\]";

/// The progress that a match tells, where both numbers are of 64 bits.
pub open spec fn progress_in(m: Seq<Option<Seq<char>>>) -> Option<(u64, u64)> {
    match (group_of(m, 1), group_of(m, 2)) {
        (Some(a), Some(b)) => match (number_of(a), number_of(b)) {
            (Some(n), Some(k)) => Some((n, k)),
            _ => None,
        },
        _ => None,
    }
}

/// The progress that some matches tell.
pub open spec fn progress_of(ms: Seq<Seq<Option<Seq<char>>>>) -> Seq<(u64, u64)> {
    ms.filter_map(|m: Seq<Option<Seq<char>>>| progress_in(m))
}

/// The progress that some matches tell.
pub fn progress_in_matches(ms: &[Vec<Option<String>>]) -> (r: Vec<(u64, u64)>)
    ensures
        r@ == progress_of(match_texts(ms@)),
{
    let ghost all = match_texts(ms@);
    let ghost f = |m: Seq<Option<Seq<char>>>| progress_in(m);
    let mut out: Vec<(u64, u64)> = Vec::new();
    proof {
        assert(out@ =~= all.take(0).filter_map(f));
    }
    for i in 0..ms.len()
        invariant
            all == match_texts(ms@),
            f == (|m: Seq<Option<Seq<char>>>| progress_in(m)),
            out@ == all.take(i as int).filter_map(f),
    {
        proof {
            lemma_filter_map_next(all, f, i as int);
            assert(all[i as int] == ms@[i as int]@.map_values(|g: Option<String>| opt_text(g)));
        }
        if let Some(a) = group(&ms[i], 1) {
            if let Some(b) = group(&ms[i], 2) {
                if let Some(n) = parse_number(a.as_str()) {
                    if let Some(k) = parse_number(b.as_str()) {
                        out.push((n, k));
                    }
                }
            }
        }
    }
    proof {
        lemma_take_all(all);
    }
    out
}

/// The progress that the output of a build tells.
pub fn parse_progress(output: &str) -> (r: Vec<(u64, u64)>)
    ensures
        r@ == progress_of(regex_matches(PROGRESS_PATTERN@, output@)),
{
    progress_in_matches(&all_matches(PROGRESS_PATTERN, output))
}

/// A line without white space around it, where it speaks of an error.
pub open spec fn error_line(line: Seq<char>) -> Option<Seq<char>> {
    if contains_of(lowercase_of(line), "error"@) {
        Some(trim_of(line))
    } else {
        None
    }
}

/// The lines that speak of an error.
pub open spec fn error_lines(output: Seq<char>) -> Seq<Seq<char>> {
    lines_of(output).filter_map(|l: Seq<char>| error_line(l))
}

/// The lines that speak of an error, without white space around them.
pub fn collect_errors(output: &str) -> (r: Vec<String>)
    ensures
        texts(r@) == error_lines(output@),
{
    let ls = lines(output);
    let ghost all = lines_of(output@);
    let ghost f = |l: Seq<char>| error_line(l);
    let mut out: Vec<String> = Vec::new();
    proof {
        assert(texts(out@) =~= all.take(0).filter_map(f));
        assert(texts(ls@).len() == ls@.len());
    }
    for i in 0..ls.len()
        invariant
            texts(ls@) == all,
            f == (|l: Seq<char>| error_line(l)),
            texts(out@) == all.take(i as int).filter_map(f),
    {
        proof {
            lemma_filter_map_next(all, f, i as int);
            assert(all[i as int] == ls@[i as int]@);
        }
        if str_contains(to_lower(ls[i].as_str()).as_str(), "error") {
            let ghost before = out@;
            out.push(text_of(trim(&chars_of(ls[i].as_str()))));
            proof {
                assert(texts(out@) =~= texts(before).push(trim_of(ls@[i as int]@)));
            }
        }
    }
    proof {
        lemma_take_all(all);
    }
    out
}

/// The last `n` lines of a text.
pub open spec fn last_lines(output: Seq<char>, n: usize) -> Seq<char> {
    let ls = lines_of(output);
    if n == 0 {
        Seq::empty()
    } else if ls.len() <= n {
        output
    } else {
        join_of(ls.skip(ls.len() - n), "\n"@)
    }
}

/// The last `n` lines of a text.
pub fn truncate_output(output: &str, n: usize) -> (r: String)
    ensures
        r@ == last_lines(output@, n),
{
    if n == 0 {
        return String::new();
    }
    let ls = lines(output);
    proof {
        assert(texts(ls@).len() == ls@.len());
    }
    if ls.len() <= n {
        output.to_owned()
    } else {
        let tail = slice_subrange(&ls, ls.len() - n, ls.len());
        proof {
            assert(texts(tail@) =~= lines_of(output@).skip(ls@.len() - n));
        }
        join(tail, "\n")
    }
}

/// All that a program wrote.
pub open spec fn combined(stdout: Seq<char>, stderr: Seq<char>) -> Seq<char> {
    if stderr.len() == 0 {
        stdout
    } else if stdout.len() == 0 {
        stderr
    } else {
        stdout + "\n"@ + stderr
    }
}

/// All that a program wrote.
pub fn combine(stdout: String, stderr: String) -> (r: String)
    ensures
        r@ == combined(stdout@, stderr@),
{
    if stderr.as_str().unicode_len() == 0 {
        stdout
    } else if stdout.as_str().unicode_len() == 0 {
        stderr
    } else {
        glue3(stdout.as_str(), "\n", stderr.as_str())
    }
}

/// A log with more text at its end, on a line of its own.
pub open spec fn logged(log: Seq<char>, more: Seq<char>) -> Seq<char> {
    if log.len() == 0 {
        more
    } else {
        log + "\n"@ + more
    }
}

/// A log with more text at its end, on a line of its own.
fn add_to_log(log: String, more: &str) -> (r: String)
    ensures
        r@ == logged(log@, more@),
{
    if log.as_str().unicode_len() == 0 {
        more.to_owned()
    } else {
        glue3(log.as_str(), "\n", more)
    }
}

// ---------------------------------------------------------------------------
// The tool
// ---------------------------------------------------------------------------

/// What a run of `lake` came to: whether it succeeded and what it wrote, or why
/// it could not be run.
pub open spec fn lake_said(r: ReplyView) -> Result<(bool, Seq<char>), Seq<char>> {
    match r {
        ReplyView::Command { success, stdout, stderr, .. } => Ok(
            (success, combined(stdout, stderr)),
        ),
        _ => Err("Failed to run `lake`: "@ + r.trouble()),
    }
}

/// What a run of `lake` came to.
fn lake_result(reply: Reply) -> (r: Result<(bool, String), String>)
    ensures
        match r {
            Ok((ok, out)) => lake_said(reply@) == Ok::<_, Seq<char>>((ok, out@)),
            Err(m) => lake_said(reply@) == Err::<(bool, Seq<char>), _>(m@),
        },
{
    match reply {
        Reply::Command { success, stdout, stderr, .. } => Ok((success, combine(stdout, stderr))),
        other => Err(glue("Failed to run `lake`: ", other.message().as_str())),
    }
}

/// What `lean_build` comes to.
pub type BuildSaid = Result<BuildResultView, ErrorView>;

/// After the build.
pub open spec fn build_done(log: Seq<char>, keep: usize) -> Waiting<BuildSaid> {
    |r: ReplyView|
        Dialogue::Finish(
            match lake_said(r) {
                Ok((ok, out)) => Ok(
                    BuildResultView {
                        success: ok,
                        output: last_lines(logged(log, out), keep),
                        errors: if ok {
                            Seq::empty()
                        } else {
                            error_lines(logged(log, out))
                        },
                    },
                ),
                Err(m) => Err(ErrorView::Other(m)),
            },
        )
}

/// After the cache was fetched, or not.
pub open spec fn build_cached(log: Seq<char>, keep: usize) -> Waiting<BuildSaid> {
    |r: ReplyView|
        Dialogue::Ask(
            RequestView::RunCommand { program: "lake"@, args: seq!["build"@, "--verbose"@] },
            build_done(
                logged(
                    log,
                    match lake_said(r) {
                        Ok((_, out)) => out,
                        Err(m) => "cache get warning: "@ + m,
                    },
                ),
                keep,
            ),
        )
}

/// Fetches the cache.
pub open spec fn fetch_cache(log: Seq<char>, keep: usize) -> Dialogue<BuildSaid> {
    Dialogue::Ask(
        RequestView::RunCommand { program: "lake"@, args: seq!["exe"@, "cache"@, "get"@] },
        build_cached(log, keep),
    )
}

/// After the project was cleaned.
pub open spec fn build_cleaned(keep: usize) -> Waiting<BuildSaid> {
    |r: ReplyView|
        match lake_said(r) {
            Ok((ok, out)) => if ok {
                fetch_cache(out, keep)
            } else {
                Dialogue::Finish(
                    Ok(
                        BuildResultView {
                            success: false,
                            output: last_lines(out, keep),
                            errors: seq!["lake clean failed: "@ + out],
                        },
                    ),
                )
            },
            Err(m) => Dialogue::Finish(Err(ErrorView::Other(m))),
        }
}

/// The whole of `lean_build`.
pub open spec fn build_dialogue(clean: bool, keep: usize) -> Dialogue<BuildSaid> {
    if clean {
        Dialogue::Ask(
            RequestView::RunCommand { program: "lake"@, args: seq!["clean"@] },
            build_cleaned(keep),
        )
    } else {
        fetch_cache(Seq::empty(), keep)
    }
}

/// `lean_build` at work.
pub enum BuildCall {
    /// Waits until the project is cleaned.
    Cleaning { keep: usize },
    /// Waits for the cache.
    Fetching { log: String, keep: usize },
    /// Waits for the build.
    Building { log: String, keep: usize },
}

impl Waits for BuildCall {
    type Out = Result<BuildResult, LeanToolError>;

    type Said = BuildSaid;

    open spec fn said(o: Self::Out) -> BuildSaid {
        result_view(o)
    }

    open spec fn valid(self) -> bool {
        true
    }

    open spec fn waiting(self) -> Waiting<BuildSaid> {
        match self {
            BuildCall::Cleaning { keep } => build_cleaned(keep),
            BuildCall::Fetching { log, keep } => build_cached(log@, keep),
            BuildCall::Building { log, keep } => build_done(log@, keep),
        }
    }

    open spec fn admits(self, r: ReplyView) -> bool {
        true
    }
}

/// A run of `lake`.
fn lake(args: Vec<&str>) -> (q: Request)
    ensures
        q@ == (RequestView::RunCommand { program: "lake"@, args: strs(args@) }),
{
    Request::RunCommand { program: "lake".to_owned(), args: owned(args) }
}

impl BuildCall {
    /// Fetches the cache.
    fn fetch(log: String, keep: usize) -> (t: Turn<BuildCall, Result<BuildResult, LeanToolError>>)
        ensures
            begins(t, fetch_cache(log@, keep)),
    {
        let args: Vec<&str> = vec!["exe", "cache", "get"];
        proof {
            assert(strs(args@) =~= seq!["exe"@, "cache"@, "get"@]);
        }
        Turn::Ask(lake(args), BuildCall::Fetching { log, keep })
    }
}

impl Call for BuildCall {
    fn accepts(&self, reply: &Reply) -> (r: bool) {
        true
    }

    fn resume(self, reply: Reply) -> (t: Turn<Self, Self::Out>) {
        match self {
            BuildCall::Cleaning { keep } => match lake_result(reply) {
                Ok((true, out)) => BuildCall::fetch(out, keep),
                Ok((false, out)) => {
                    let mut errors: Vec<String> = Vec::new();
                    errors.push(glue("lake clean failed: ", out.as_str()));
                    proof {
                        assert(texts(errors@) =~= seq!["lake clean failed: "@ + out@]);
                    }
                    let output = truncate_output(out.as_str(), keep);
                    Turn::Done(Ok(BuildResult { success: false, output, errors }))
                },
                Err(m) => Turn::Done(Err(LeanToolError::Other(m))),
            },
            BuildCall::Fetching { log, keep } => {
                let more = match lake_result(reply) {
                    Ok((_, out)) => out,
                    Err(m) => glue("cache get warning: ", m.as_str()),
                };
                let log = add_to_log(log, more.as_str());
                let args: Vec<&str> = vec!["build", "--verbose"];
                proof {
                    assert(strs(args@) =~= seq!["build"@, "--verbose"@]);
                }
                Turn::Ask(lake(args), BuildCall::Building { log, keep })
            },
            BuildCall::Building { log, keep } => match lake_result(reply) {
                Ok((success, out)) => {
                    let log = add_to_log(log, out.as_str());
                    let errors = if success {
                        let none: Vec<String> = Vec::new();
                        proof {
                            assert(texts(none@) =~= Seq::empty());
                        }
                        none
                    } else {
                        collect_errors(log.as_str())
                    };
                    let output = truncate_output(log.as_str(), keep);
                    Turn::Done(Ok(BuildResult { success, output, errors }))
                },
                Err(m) => Turn::Done(Err(LeanToolError::Other(m))),
            },
        }
    }
}

/// Builds the project, cleaning it first where that is wanted, and tells the
/// last `output_lines` lines of the log.
pub fn handle_build(clean: bool, output_lines: usize) -> (t: Turn<
    BuildCall,
    Result<BuildResult, LeanToolError>,
>)
    ensures
        begins(t, build_dialogue(clean, output_lines)),
{
    if clean {
        let args: Vec<&str> = vec!["clean"];
        proof {
            assert(strs(args@) =~= seq!["clean"@]);
        }
        Turn::Ask(lake(args), BuildCall::Cleaning { keep: output_lines })
    } else {
        BuildCall::fetch(String::new(), output_lines)
    }
}

} // verus!
