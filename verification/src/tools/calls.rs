//! Each call of a tool tells what its tool tells for its parameters, with what stands in for
//! those that are not given.
use crate::models::{all_views, opt_text};
use crate::protocol::{ends_well, lemma_followed_ends_well, ReplyView, RequestView};
use crate::server::{
    BatchGoalParams, BuildParams, CodeActionsParams, CompletionsParams, DeclarationParams,
    DiagnosticParams, FileOutlineParams, GetWidgetsParams, GoalParams, HammerPremiseParams,
    HoverParams, LeanFinderParams, LeanSearchParams, LocalSearchParams, LoogleParams,
    MultiAttemptParams, ProfileProofParams, ProjectHealthParams, ProofDiffParams, ReferencesParams,
    RunCodeParams, StateSearchParams, TermGoalParams, VerifyParams, WidgetSourceParams,
};
use crate::text::{decimal_of, texts};
use crate::tools::answers::{
    hearing, in_parallel, in_sequence, lemma_multi_attempt_tells, lemma_parallel_first, plan_told,
    sequence_told, unheard, Heard,
};
use crate::tools::batch_goals::{files_dialogue, files_of, FilesSaid};
use crate::tools::batches::{files_told, lemma_files_tells};
use crate::tools::code_actions::{actions_dialogue, ActionsSaid};
use crate::tools::completions::{completions_dialogue, CompletionsSaid};
use crate::tools::declarations::{declaration_dialogue, DeclarationSaid};
use crate::tools::diagnostics::{diagnostics_dialogue, DiagnosticsQueryView, DiagnosticsSaid};
use crate::tools::findings::{
    build_told, finder_told, leansearch_told, lemma_build_tells, lemma_finder_tells,
    lemma_leansearch_tells, lemma_loogle_tells, lemma_premise_tells, lemma_run_code_tells,
    lemma_state_tells, loogle_told, premise_search_told, run_code_told, state_told, words_of,
};
use crate::tools::goal::{goal_dialogue, term_goal_dialogue, GoalSaid, TermGoalSaid};
use crate::tools::hover::{hover_dialogue, HoverSaid};
use crate::tools::lake_build::{build_dialogue, BuildSaid};
use crate::tools::lookups::{
    code_actions_told, completions_are_told, declaration_told, diagnostics_told, diff_told,
    goal_told, hover_is_told, lemma_code_actions_tells, lemma_completions_tells,
    lemma_declaration_tells, lemma_diagnostics_tells, lemma_diff_tells, lemma_goal_tells,
    lemma_hover_tells, lemma_outline_tells, lemma_references_tells, lemma_term_goal_tells,
    lemma_widget_source_tells, lemma_widgets_tells, outline_told, references_told, term_goal_told,
    widget_source_told, widgets_are_told,
};
use crate::tools::multi_attempt::{multi_attempt_dialogue, ToolSaid};
use crate::tools::outline::{outline_dialogue, OutlineSaid};
use crate::tools::profile::{profile_dialogue, ProfileSaid};
use crate::tools::project_health::{health_dialogue, HealthSaid};
use crate::tools::proof_diff::{diff_dialogue, DiffSaid, Places};
use crate::tools::references::{references_dialogue, ReferencesSaid};
use crate::tools::run_code::{run_dialogue, CodeView, RunSaid};
use crate::tools::search::{
    finder_dialogue, leansearch_dialogue, loogle_dialogue, premise_dialogue, state_dialogue,
    FinderSaid, LeanSearchSaid, LoogleSaid, PremiseSaid, StateSaid,
};
use crate::tools::timings::{lemma_profiling_tells, profiling_told};
use crate::tools::toolbox::{
    answer_dialogue, build_ended, code_actions_ended, completions_ended, declaration_ended,
    diagnostics_ended, error_told, goal_ended, goals_batch_ended, hover_ended, lean_finder_ended,
    lean_search_ended, loogle_ended, multi_attempt_ended, outline_ended, premises_ended,
    profile_ended, project_health_ended, proof_diff_ended, references_ended, run_code_ended,
    state_search_ended, term_goal_ended, tool_dialogue, tool_named, tool_ran, verify_ended,
    widget_source_ended, widgets_ended, AnswerSaid, OutcomeView, RanSaid, SettingsView, Tool,
    ToolCall, TroubleView,
};
use crate::tools::verdicts::{health_told, lemma_health_tells, lemma_verify_tells, verify_told};
use crate::tools::verify::{verify_dialogue, VerifySaid};
use crate::tools::widgets::{
    widget_source_dialogue, widgets_dialogue, WidgetSourceSaid, WidgetsSaid,
};
use vstd::prelude::*;

verus! {

// ---------------------------------------------------------------------------
// Parameters
// ---------------------------------------------------------------------------

/// The number that is wanted, or else another.
pub open spec fn wanted(n: Option<usize>, other: usize) -> usize {
    if n is Some {
        n->0
    } else {
        other
    }
}

/// What a flag is set to, or else another.
pub open spec fn set(b: Option<bool>, other: bool) -> bool {
    if b is Some {
        b->0
    } else {
        other
    }
}

/// The diagnostics that are asked for; those that are not interactive, unless that is
/// wanted.
pub open spec fn query_of(p: DiagnosticParams) -> DiagnosticsQueryView {
    DiagnosticsQueryView {
        path: p.file_path@,
        start_line: p.start_line,
        end_line: p.end_line,
        declaration: opt_text(p.declaration_name),
        interactive: p.interactive == Some(true),
        severity: opt_text(p.severity),
    }
}

/// The file in which a snippet is run.
pub open spec fn snippet_file(id: Seq<char>) -> Seq<char> {
    ".lake/_mcp/_mcp_snippet_"@ + id + ".lean"@
}

/// Code that stands alone, with the limit that is set.
pub open spec fn code_alone(p: RunCodeParams, s: SettingsView) -> CodeView {
    CodeView { code: p.code@, context_path: None, heartbeats: s.heartbeats }
}

/// The file in which a theorem is profiled.
pub open spec fn profile_file(process: u32) -> Seq<char> {
    ".lean_profile_"@ + decimal_of(process as nat) + ".lean"@
}

/// For how many seconds the profiler may run.
pub open spec fn seconds_of(p: ProfileProofParams) -> Seq<char> {
    match p.timeout {
        Some(t) => t@,
        None => "30"@,
    }
}

/// The places of a diff.
pub open spec fn places_of(p: ProofDiffParams) -> Places {
    Places {
        before_line: p.before_line,
        before_column: p.before_column,
        after_line: p.after_line,
        after_column: p.after_column,
    }
}

// ---------------------------------------------------------------------------
// Calls
// ---------------------------------------------------------------------------

/// How a call of `lean_goal` is to end.
pub open spec fn goal_call_told(p: GoalParams) -> spec_fn(Heard, RanSaid) -> bool {
    let told = goal_told(p.file_path@, p.line, p.column);
    |h: Heard, o: RanSaid|
        match o {
            Ok(OutcomeView::Goal(v)) => told(h, Ok(v)),
            Err(TroubleView::Tool(e)) => told(h, Err(e)),
            _ => false,
        }
}

/// A call of `lean_goal` tells what the tool does.
pub proof fn lemma_goal_called(p: GoalParams, s: SettingsView)
    ensures
        ends_well(
            tool_dialogue(ToolCall::Goal(p), s),
            hearing(),
            unheard(),
            goal_call_told(p),
        ),
{
    let told = goal_told(p.file_path@, p.line, p.column);
    let good = goal_call_told(p);
    let f = goal_ended();
    lemma_goal_tells(p.file_path@, p.line, p.column);
    assert forall|h: Heard, o: GoalSaid| #[trigger] told(h, o) implies ends_well(
        f(o),
        hearing(),
        h,
        good,
    ) by {}
    lemma_followed_ends_well(
        goal_dialogue(p.file_path@, p.line, p.column),
        f,
        hearing(),
        unheard(),
        told,
        good,
    );
}

/// How a call of `lean_term_goal` is to end.
pub open spec fn term_goal_call_told(p: TermGoalParams) -> spec_fn(Heard, RanSaid) -> bool {
    let told = term_goal_told(p.file_path@, p.line, p.column);
    |h: Heard, o: RanSaid|
        match o {
            Ok(OutcomeView::TermGoal(v)) => told(h, Ok(v)),
            Err(TroubleView::Tool(e)) => told(h, Err(e)),
            _ => false,
        }
}

/// A call of `lean_term_goal` tells what the tool does.
pub proof fn lemma_term_goal_called(p: TermGoalParams, s: SettingsView)
    ensures
        ends_well(
            tool_dialogue(ToolCall::TermGoal(p), s),
            hearing(),
            unheard(),
            term_goal_call_told(p),
        ),
{
    let told = term_goal_told(p.file_path@, p.line, p.column);
    let good = term_goal_call_told(p);
    let f = term_goal_ended();
    lemma_term_goal_tells(p.file_path@, p.line, p.column);
    assert forall|h: Heard, o: TermGoalSaid| #[trigger] told(h, o) implies ends_well(
        f(o),
        hearing(),
        h,
        good,
    ) by {}
    lemma_followed_ends_well(
        term_goal_dialogue(p.file_path@, p.line, p.column),
        f,
        hearing(),
        unheard(),
        told,
        good,
    );
}

/// How a call of `lean_hover_info` is to end.
pub open spec fn hover_call_told(p: HoverParams) -> spec_fn(Heard, RanSaid) -> bool {
    let told = hover_is_told(p.file_path@, p.line, p.column);
    |h: Heard, o: RanSaid|
        match o {
            Ok(OutcomeView::Hover(v)) => told(h, Ok(v)),
            Err(TroubleView::Tool(e)) => told(h, Err(e)),
            _ => false,
        }
}

/// A call of `lean_hover_info` tells what the tool does.
pub proof fn lemma_hover_called(p: HoverParams, s: SettingsView)
    ensures
        ends_well(
            tool_dialogue(ToolCall::Hover(p), s),
            hearing(),
            unheard(),
            hover_call_told(p),
        ),
{
    let told = hover_is_told(p.file_path@, p.line, p.column);
    let good = hover_call_told(p);
    let f = hover_ended();
    lemma_hover_tells(p.file_path@, p.line, p.column);
    assert forall|h: Heard, o: HoverSaid| #[trigger] told(h, o) implies ends_well(
        f(o),
        hearing(),
        h,
        good,
    ) by {}
    lemma_followed_ends_well(
        hover_dialogue(p.file_path@, p.line, p.column),
        f,
        hearing(),
        unheard(),
        told,
        good,
    );
}

/// How a call of `lean_completions` is to end.
pub open spec fn completions_call_told(p: CompletionsParams) -> spec_fn(Heard, RanSaid) -> bool {
    let told = completions_are_told(p.file_path@, p.line, p.column, wanted(p.max_completions, 32));
    |h: Heard, o: RanSaid|
        match o {
            Ok(OutcomeView::Completions(v)) => told(h, Ok(v)),
            Err(TroubleView::Tool(e)) => told(h, Err(e)),
            _ => false,
        }
}

/// A call of `lean_completions` tells what the tool does.
pub proof fn lemma_completions_called(p: CompletionsParams, s: SettingsView)
    ensures
        ends_well(
            tool_dialogue(ToolCall::Completions(p), s),
            hearing(),
            unheard(),
            completions_call_told(p),
        ),
{
    let told = completions_are_told(p.file_path@, p.line, p.column, wanted(p.max_completions, 32));
    let good = completions_call_told(p);
    let f = completions_ended();
    lemma_completions_tells(p.file_path@, p.line, p.column, wanted(p.max_completions, 32));
    assert forall|h: Heard, o: CompletionsSaid| #[trigger] told(h, o) implies ends_well(
        f(o),
        hearing(),
        h,
        good,
    ) by {}
    lemma_followed_ends_well(
        completions_dialogue(p.file_path@, p.line, p.column, wanted(p.max_completions, 32)),
        f,
        hearing(),
        unheard(),
        told,
        good,
    );
}

/// How a call of `lean_diagnostic_messages` is to end.
pub open spec fn diagnostics_call_told(p: DiagnosticParams) -> spec_fn(Heard, RanSaid) -> bool {
    let told = diagnostics_told(query_of(p));
    |h: Heard, o: RanSaid|
        match o {
            Ok(OutcomeView::Diagnostics(v)) => told(h, Ok(v)),
            Err(TroubleView::Tool(e)) => told(h, Err(e)),
            _ => false,
        }
}

/// A call of `lean_diagnostic_messages` tells what the tool does.
pub proof fn lemma_diagnostics_called(p: DiagnosticParams, s: SettingsView)
    ensures
        ends_well(
            tool_dialogue(ToolCall::Diagnostics(p), s),
            hearing(),
            unheard(),
            diagnostics_call_told(p),
        ),
{
    let told = diagnostics_told(query_of(p));
    let good = diagnostics_call_told(p);
    let f = diagnostics_ended();
    lemma_diagnostics_tells(query_of(p));
    assert forall|h: Heard, o: DiagnosticsSaid| #[trigger] told(h, o) implies ends_well(
        f(o),
        hearing(),
        h,
        good,
    ) by {}
    lemma_followed_ends_well(
        diagnostics_dialogue(query_of(p)),
        f,
        hearing(),
        unheard(),
        told,
        good,
    );
}

/// How a call of `lean_file_outline` is to end.
pub open spec fn outline_call_told(p: FileOutlineParams) -> spec_fn(Heard, RanSaid) -> bool {
    let told = outline_told(p.file_path@, p.max_declarations);
    |h: Heard, o: RanSaid|
        match o {
            Ok(OutcomeView::Outline(v)) => told(h, Ok(v)),
            Err(TroubleView::Tool(e)) => told(h, Err(e)),
            _ => false,
        }
}

/// A call of `lean_file_outline` tells what the tool does.
pub proof fn lemma_outline_called(p: FileOutlineParams, s: SettingsView)
    ensures
        ends_well(
            tool_dialogue(ToolCall::Outline(p), s),
            hearing(),
            unheard(),
            outline_call_told(p),
        ),
{
    let told = outline_told(p.file_path@, p.max_declarations);
    let good = outline_call_told(p);
    let f = outline_ended();
    lemma_outline_tells(p.file_path@, p.max_declarations);
    assert forall|h: Heard, o: OutlineSaid| #[trigger] told(h, o) implies ends_well(
        f(o),
        hearing(),
        h,
        good,
    ) by {}
    lemma_followed_ends_well(
        outline_dialogue(p.file_path@, p.max_declarations),
        f,
        hearing(),
        unheard(),
        told,
        good,
    );
}

/// How a call of `lean_declaration_file` is to end.
pub open spec fn declaration_call_told(p: DeclarationParams) -> spec_fn(Heard, RanSaid) -> bool {
    let told = declaration_told(p.file_path@, p.symbol@);
    |h: Heard, o: RanSaid|
        match o {
            Ok(OutcomeView::Declaration(v)) => told(h, Ok(v)),
            Err(TroubleView::Tool(e)) => told(h, Err(e)),
            _ => false,
        }
}

/// A call of `lean_declaration_file` tells what the tool does.
pub proof fn lemma_declaration_called(p: DeclarationParams, s: SettingsView)
    ensures
        ends_well(
            tool_dialogue(ToolCall::Declaration(p), s),
            hearing(),
            unheard(),
            declaration_call_told(p),
        ),
{
    let told = declaration_told(p.file_path@, p.symbol@);
    let good = declaration_call_told(p);
    let f = declaration_ended();
    lemma_declaration_tells(p.file_path@, p.symbol@);
    assert forall|h: Heard, o: DeclarationSaid| #[trigger] told(h, o) implies ends_well(
        f(o),
        hearing(),
        h,
        good,
    ) by {}
    lemma_followed_ends_well(
        declaration_dialogue(p.file_path@, p.symbol@),
        f,
        hearing(),
        unheard(),
        told,
        good,
    );
}

/// How a call of `lean_references` is to end.
pub open spec fn references_call_told(p: ReferencesParams) -> spec_fn(Heard, RanSaid) -> bool {
    let told = references_told(p.file_path@, p.line, p.column);
    |h: Heard, o: RanSaid|
        match o {
            Ok(OutcomeView::References(v)) => told(h, Ok(v)),
            Err(TroubleView::Tool(e)) => told(h, Err(e)),
            _ => false,
        }
}

/// A call of `lean_references` tells what the tool does.
pub proof fn lemma_references_called(p: ReferencesParams, s: SettingsView)
    ensures
        ends_well(
            tool_dialogue(ToolCall::References(p), s),
            hearing(),
            unheard(),
            references_call_told(p),
        ),
{
    let told = references_told(p.file_path@, p.line, p.column);
    let good = references_call_told(p);
    let f = references_ended();
    lemma_references_tells(p.file_path@, p.line, p.column);
    assert forall|h: Heard, o: ReferencesSaid| #[trigger] told(h, o) implies ends_well(
        f(o),
        hearing(),
        h,
        good,
    ) by {}
    lemma_followed_ends_well(
        references_dialogue(p.file_path@, p.line, p.column),
        f,
        hearing(),
        unheard(),
        told,
        good,
    );
}

/// How a call of `lean_run_code` is to end.
pub open spec fn run_code_call_told(p: RunCodeParams, s: SettingsView) -> spec_fn(
    Heard,
    RanSaid,
) -> bool {
    let told = run_code_told(snippet_file(s.id), code_alone(p, s));
    |h: Heard, o: RanSaid|
        match o {
            Ok(OutcomeView::RunCode(v)) => told(h, Ok(v)),
            Err(TroubleView::Tool(e)) => told(h, Err(e)),
            _ => false,
        }
}

/// A call of `lean_run_code` tells what the tool does.
pub proof fn lemma_run_code_called(p: RunCodeParams, s: SettingsView)
    ensures
        ends_well(
            tool_dialogue(ToolCall::RunCode(p), s),
            hearing(),
            unheard(),
            run_code_call_told(p, s),
        ),
{
    let told = run_code_told(snippet_file(s.id), code_alone(p, s));
    let good = run_code_call_told(p, s);
    let f = run_code_ended();
    lemma_run_code_tells(snippet_file(s.id), code_alone(p, s));
    assert forall|h: Heard, o: RunSaid| #[trigger] told(h, o) implies ends_well(
        f(o),
        hearing(),
        h,
        good,
    ) by {}
    lemma_followed_ends_well(
        run_dialogue(snippet_file(s.id), code_alone(p, s)),
        f,
        hearing(),
        unheard(),
        told,
        good,
    );
}

/// How a call of `lean_verify` is to end.
pub open spec fn verify_call_told(p: VerifyParams) -> spec_fn(Heard, RanSaid) -> bool {
    let told = verify_told(p.file_path@, p.theorem_name@, set(p.scan_source, true));
    |h: Heard, o: RanSaid|
        match o {
            Ok(OutcomeView::Verify(v)) => told(h, Ok(v)),
            Err(TroubleView::Tool(e)) => told(h, Err(e)),
            _ => false,
        }
}

/// A call of `lean_verify` tells what the tool does.
pub proof fn lemma_verify_called(p: VerifyParams, s: SettingsView)
    ensures
        ends_well(
            tool_dialogue(ToolCall::Verify(p), s),
            hearing(),
            unheard(),
            verify_call_told(p),
        ),
{
    let told = verify_told(p.file_path@, p.theorem_name@, set(p.scan_source, true));
    let good = verify_call_told(p);
    let f = verify_ended();
    lemma_verify_tells(p.file_path@, p.theorem_name@, set(p.scan_source, true));
    assert forall|h: Heard, o: VerifySaid| #[trigger] told(h, o) implies ends_well(
        f(o),
        hearing(),
        h,
        good,
    ) by {}
    lemma_followed_ends_well(
        verify_dialogue(p.file_path@, p.theorem_name@, set(p.scan_source, true)),
        f,
        hearing(),
        unheard(),
        told,
        good,
    );
}

/// How a call of `lean_build` is to end.
pub open spec fn build_call_told(p: BuildParams) -> spec_fn(Heard, RanSaid) -> bool {
    let told = build_told(set(p.clean, false), wanted(p.output_lines, 20));
    |h: Heard, o: RanSaid|
        match o {
            Ok(OutcomeView::Build(v)) => told(h, Ok(v)),
            Err(TroubleView::Tool(e)) => told(h, Err(e)),
            _ => false,
        }
}

/// A call of `lean_build` tells what the tool does.
pub proof fn lemma_build_called(p: BuildParams, s: SettingsView)
    ensures
        ends_well(
            tool_dialogue(ToolCall::Build(p), s),
            hearing(),
            unheard(),
            build_call_told(p),
        ),
{
    let told = build_told(set(p.clean, false), wanted(p.output_lines, 20));
    let good = build_call_told(p);
    let f = build_ended();
    lemma_build_tells(set(p.clean, false), wanted(p.output_lines, 20));
    assert forall|h: Heard, o: BuildSaid| #[trigger] told(h, o) implies ends_well(
        f(o),
        hearing(),
        h,
        good,
    ) by {}
    lemma_followed_ends_well(
        build_dialogue(set(p.clean, false), wanted(p.output_lines, 20)),
        f,
        hearing(),
        unheard(),
        told,
        good,
    );
}

/// How a call of `lean_profile_proof` is to end.
pub open spec fn profile_call_told(p: ProfileProofParams, s: SettingsView) -> spec_fn(
    Heard,
    RanSaid,
) -> bool {
    let told = profiling_told(p.file_path@, p.line, profile_file(s.process), seconds_of(p));
    |h: Heard, o: RanSaid|
        match o {
            Ok(OutcomeView::Profile(v)) => told(h, Ok(v)),
            Err(TroubleView::Tool(e)) => told(h, Err(e)),
            _ => false,
        }
}

/// A call of `lean_profile_proof` tells what the tool does.
pub proof fn lemma_profile_called(p: ProfileProofParams, s: SettingsView)
    ensures
        ends_well(
            tool_dialogue(ToolCall::Profile(p), s),
            hearing(),
            unheard(),
            profile_call_told(p, s),
        ),
{
    let told = profiling_told(p.file_path@, p.line, profile_file(s.process), seconds_of(p));
    let good = profile_call_told(p, s);
    let f = profile_ended();
    lemma_profiling_tells(p.file_path@, p.line, profile_file(s.process), seconds_of(p));
    assert forall|h: Heard, o: ProfileSaid| #[trigger] told(h, o) implies ends_well(
        f(o),
        hearing(),
        h,
        good,
    ) by {}
    lemma_followed_ends_well(
        profile_dialogue(p.file_path@, p.line, profile_file(s.process), seconds_of(p)),
        f,
        hearing(),
        unheard(),
        told,
        good,
    );
}

/// How a call of `lean_leansearch` is to end.
pub open spec fn lean_search_call_told(p: LeanSearchParams, s: SettingsView) -> spec_fn(
    Heard,
    RanSaid,
) -> bool {
    let told = leansearch_told(p.query@, wanted(p.num_results, 5) as nat, s.config.leansearch_url);
    |h: Heard, o: RanSaid|
        match o {
            Ok(OutcomeView::LeanSearch(v)) => told(h, Ok(v)),
            Err(TroubleView::Tool(e)) => told(h, Err(e)),
            _ => false,
        }
}

/// A call of `lean_leansearch` tells what the tool does.
pub proof fn lemma_lean_search_called(p: LeanSearchParams, s: SettingsView)
    ensures
        ends_well(
            tool_dialogue(ToolCall::LeanSearch(p), s),
            hearing(),
            unheard(),
            lean_search_call_told(p, s),
        ),
{
    let told = leansearch_told(p.query@, wanted(p.num_results, 5) as nat, s.config.leansearch_url);
    let good = lean_search_call_told(p, s);
    let f = lean_search_ended();
    lemma_leansearch_tells(p.query@, wanted(p.num_results, 5) as nat, s.config.leansearch_url);
    assert forall|h: Heard, o: LeanSearchSaid| #[trigger] told(h, o) implies ends_well(
        f(o),
        hearing(),
        h,
        good,
    ) by {}
    lemma_followed_ends_well(
        leansearch_dialogue(p.query@, wanted(p.num_results, 5) as nat, s.config.leansearch_url),
        f,
        hearing(),
        unheard(),
        told,
        good,
    );
}

/// How a call of `lean_loogle` is to end.
pub open spec fn loogle_call_told(p: LoogleParams, s: SettingsView) -> spec_fn(
    Heard,
    RanSaid,
) -> bool {
    let told = loogle_told(p.query@, wanted(p.num_results, 8) as nat, s.config.loogle_url);
    |h: Heard, o: RanSaid|
        match o {
            Ok(OutcomeView::Loogle(v)) => told(h, Ok(v)),
            Err(TroubleView::Tool(e)) => told(h, Err(e)),
            _ => false,
        }
}

/// A call of `lean_loogle` tells what the tool does.
pub proof fn lemma_loogle_called(p: LoogleParams, s: SettingsView)
    ensures
        ends_well(
            tool_dialogue(ToolCall::Loogle(p), s),
            hearing(),
            unheard(),
            loogle_call_told(p, s),
        ),
{
    let told = loogle_told(p.query@, wanted(p.num_results, 8) as nat, s.config.loogle_url);
    let good = loogle_call_told(p, s);
    let f = loogle_ended();
    lemma_loogle_tells(p.query@, wanted(p.num_results, 8) as nat, s.config.loogle_url);
    assert forall|h: Heard, o: LoogleSaid| #[trigger] told(h, o) implies ends_well(
        f(o),
        hearing(),
        h,
        good,
    ) by {}
    lemma_followed_ends_well(
        loogle_dialogue(p.query@, wanted(p.num_results, 8) as nat, s.config.loogle_url),
        f,
        hearing(),
        unheard(),
        told,
        good,
    );
}

/// How a call of `lean_leanfinder` is to end.
pub open spec fn lean_finder_call_told(p: LeanFinderParams, s: SettingsView) -> spec_fn(
    Heard,
    RanSaid,
) -> bool {
    let told = finder_told(p.query@, wanted(p.num_results, 5) as nat, s.config.leanfinder_url);
    |h: Heard, o: RanSaid|
        match o {
            Ok(OutcomeView::LeanFinder(v)) => told(h, Ok(v)),
            Err(TroubleView::Tool(e)) => told(h, Err(e)),
            _ => false,
        }
}

/// A call of `lean_leanfinder` tells what the tool does.
pub proof fn lemma_lean_finder_called(p: LeanFinderParams, s: SettingsView)
    ensures
        ends_well(
            tool_dialogue(ToolCall::LeanFinder(p), s),
            hearing(),
            unheard(),
            lean_finder_call_told(p, s),
        ),
{
    let told = finder_told(p.query@, wanted(p.num_results, 5) as nat, s.config.leanfinder_url);
    let good = lean_finder_call_told(p, s);
    let f = lean_finder_ended();
    lemma_finder_tells(p.query@, wanted(p.num_results, 5) as nat, s.config.leanfinder_url);
    assert forall|h: Heard, o: FinderSaid| #[trigger] told(h, o) implies ends_well(
        f(o),
        hearing(),
        h,
        good,
    ) by {}
    lemma_followed_ends_well(
        finder_dialogue(p.query@, wanted(p.num_results, 5) as nat, s.config.leanfinder_url),
        f,
        hearing(),
        unheard(),
        told,
        good,
    );
}

/// How a call of `lean_state_search` is to end.
pub open spec fn state_search_call_told(p: StateSearchParams, s: SettingsView) -> spec_fn(
    Heard,
    RanSaid,
) -> bool {
    let told = state_told(
        p.file_path@,
        p.line,
        p.column,
        wanted(p.num_results, 5) as nat,
        s.config.state_search_url,
    );
    |h: Heard, o: RanSaid|
        match o {
            Ok(OutcomeView::StateSearch(v)) => told(h, Ok(v)),
            Err(TroubleView::Tool(e)) => told(h, Err(e)),
            _ => false,
        }
}

/// A call of `lean_state_search` tells what the tool does.
pub proof fn lemma_state_search_called(p: StateSearchParams, s: SettingsView)
    ensures
        ends_well(
            tool_dialogue(ToolCall::StateSearch(p), s),
            hearing(),
            unheard(),
            state_search_call_told(p, s),
        ),
{
    let told = state_told(
        p.file_path@,
        p.line,
        p.column,
        wanted(p.num_results, 5) as nat,
        s.config.state_search_url,
    );
    let good = state_search_call_told(p, s);
    let f = state_search_ended();
    lemma_state_tells(
        p.file_path@,
        p.line,
        p.column,
        wanted(p.num_results, 5) as nat,
        s.config.state_search_url,
    );
    assert forall|h: Heard, o: StateSaid| #[trigger] told(h, o) implies ends_well(
        f(o),
        hearing(),
        h,
        good,
    ) by {}
    lemma_followed_ends_well(
        state_dialogue(
            p.file_path@,
            p.line,
            p.column,
            wanted(p.num_results, 5) as nat,
            s.config.state_search_url,
        ),
        f,
        hearing(),
        unheard(),
        told,
        good,
    );
}

/// How a call of `lean_hammer_premise` is to end.
pub open spec fn premises_call_told(p: HammerPremiseParams, s: SettingsView) -> spec_fn(
    Heard,
    RanSaid,
) -> bool {
    let told = premise_search_told(
        p.file_path@,
        p.line,
        p.column,
        wanted(p.num_results, 32) as nat,
        s.config.hammer_premise_url,
    );
    |h: Heard, o: RanSaid|
        match o {
            Ok(OutcomeView::Premises(v)) => told(h, Ok(v)),
            Err(TroubleView::Tool(e)) => told(h, Err(e)),
            _ => false,
        }
}

/// A call of `lean_hammer_premise` tells what the tool does.
pub proof fn lemma_premises_called(p: HammerPremiseParams, s: SettingsView)
    ensures
        ends_well(
            tool_dialogue(ToolCall::Premises(p), s),
            hearing(),
            unheard(),
            premises_call_told(p, s),
        ),
{
    let told = premise_search_told(
        p.file_path@,
        p.line,
        p.column,
        wanted(p.num_results, 32) as nat,
        s.config.hammer_premise_url,
    );
    let good = premises_call_told(p, s);
    let f = premises_ended();
    lemma_premise_tells(
        p.file_path@,
        p.line,
        p.column,
        wanted(p.num_results, 32) as nat,
        s.config.hammer_premise_url,
    );
    assert forall|h: Heard, o: PremiseSaid| #[trigger] told(h, o) implies ends_well(
        f(o),
        hearing(),
        h,
        good,
    ) by {}
    lemma_followed_ends_well(
        premise_dialogue(
            p.file_path@,
            p.line,
            p.column,
            wanted(p.num_results, 32) as nat,
            s.config.hammer_premise_url,
        ),
        f,
        hearing(),
        unheard(),
        told,
        good,
    );
}

/// How a call of `lean_code_actions` is to end.
pub open spec fn code_actions_call_told(p: CodeActionsParams) -> spec_fn(Heard, RanSaid) -> bool {
    let told = code_actions_told(p.file_path@, p.line);
    |h: Heard, o: RanSaid|
        match o {
            Ok(OutcomeView::CodeActions(v)) => told(h, Ok(v)),
            Err(TroubleView::Tool(e)) => told(h, Err(e)),
            _ => false,
        }
}

/// A call of `lean_code_actions` tells what the tool does.
pub proof fn lemma_code_actions_called(p: CodeActionsParams, s: SettingsView)
    ensures
        ends_well(
            tool_dialogue(ToolCall::CodeActions(p), s),
            hearing(),
            unheard(),
            code_actions_call_told(p),
        ),
{
    let told = code_actions_told(p.file_path@, p.line);
    let good = code_actions_call_told(p);
    let f = code_actions_ended();
    lemma_code_actions_tells(p.file_path@, p.line);
    assert forall|h: Heard, o: ActionsSaid| #[trigger] told(h, o) implies ends_well(
        f(o),
        hearing(),
        h,
        good,
    ) by {}
    lemma_followed_ends_well(
        actions_dialogue(p.file_path@, p.line),
        f,
        hearing(),
        unheard(),
        told,
        good,
    );
}

/// How a call of `lean_get_widgets` is to end.
pub open spec fn widgets_call_told(p: GetWidgetsParams) -> spec_fn(Heard, RanSaid) -> bool {
    let told = widgets_are_told(p.file_path@, p.line, p.column);
    |h: Heard, o: RanSaid|
        match o {
            Ok(OutcomeView::Widgets(v)) => told(h, Ok(v)),
            Err(TroubleView::Tool(e)) => told(h, Err(e)),
            _ => false,
        }
}

/// A call of `lean_get_widgets` tells what the tool does.
pub proof fn lemma_widgets_called(p: GetWidgetsParams, s: SettingsView)
    ensures
        ends_well(
            tool_dialogue(ToolCall::Widgets(p), s),
            hearing(),
            unheard(),
            widgets_call_told(p),
        ),
{
    let told = widgets_are_told(p.file_path@, p.line, p.column);
    let good = widgets_call_told(p);
    let f = widgets_ended();
    lemma_widgets_tells(p.file_path@, p.line, p.column);
    assert forall|h: Heard, o: WidgetsSaid| #[trigger] told(h, o) implies ends_well(
        f(o),
        hearing(),
        h,
        good,
    ) by {}
    lemma_followed_ends_well(
        widgets_dialogue(p.file_path@, p.line, p.column),
        f,
        hearing(),
        unheard(),
        told,
        good,
    );
}

/// How a call of `lean_get_widget_source` is to end.
pub open spec fn widget_source_call_told(p: WidgetSourceParams) -> spec_fn(Heard, RanSaid) -> bool {
    let told = widget_source_told(p.file_path@, p.javascript_hash@);
    |h: Heard, o: RanSaid|
        match o {
            Ok(OutcomeView::WidgetSource(v)) => told(h, Ok(v)),
            Err(TroubleView::Tool(e)) => told(h, Err(e)),
            _ => false,
        }
}

/// A call of `lean_get_widget_source` tells what the tool does.
pub proof fn lemma_widget_source_called(p: WidgetSourceParams, s: SettingsView)
    ensures
        ends_well(
            tool_dialogue(ToolCall::WidgetSource(p), s),
            hearing(),
            unheard(),
            widget_source_call_told(p),
        ),
{
    let told = widget_source_told(p.file_path@, p.javascript_hash@);
    let good = widget_source_call_told(p);
    let f = widget_source_ended();
    lemma_widget_source_tells(p.file_path@, p.javascript_hash@);
    assert forall|h: Heard, o: WidgetSourceSaid| #[trigger] told(h, o) implies ends_well(
        f(o),
        hearing(),
        h,
        good,
    ) by {}
    lemma_followed_ends_well(
        widget_source_dialogue(p.file_path@, p.javascript_hash@),
        f,
        hearing(),
        unheard(),
        told,
        good,
    );
}

/// How a call of `lean_proof_diff` is to end.
pub open spec fn proof_diff_call_told(p: ProofDiffParams) -> spec_fn(Heard, RanSaid) -> bool {
    let told = diff_told(p.file_path@, places_of(p));
    |h: Heard, o: RanSaid|
        match o {
            Ok(OutcomeView::ProofDiff(v)) => told(h, Ok(v)),
            Err(TroubleView::Tool(e)) => told(h, Err(e)),
            _ => false,
        }
}

/// A call of `lean_proof_diff` tells what the tool does.
pub proof fn lemma_proof_diff_called(p: ProofDiffParams, s: SettingsView)
    ensures
        ends_well(
            tool_dialogue(ToolCall::ProofDiff(p), s),
            hearing(),
            unheard(),
            proof_diff_call_told(p),
        ),
{
    let told = diff_told(p.file_path@, places_of(p));
    let good = proof_diff_call_told(p);
    let f = proof_diff_ended();
    lemma_diff_tells(p.file_path@, places_of(p));
    assert forall|h: Heard, o: DiffSaid| #[trigger] told(h, o) implies ends_well(
        f(o),
        hearing(),
        h,
        good,
    ) by {}
    lemma_followed_ends_well(
        diff_dialogue(p.file_path@, places_of(p)),
        f,
        hearing(),
        unheard(),
        told,
        good,
    );
}

/// How a call of `lean_multi_attempt` is to end: one after the other, unless the snippets are
/// to be tried at once.
pub open spec fn multi_attempt_call_told(p: MultiAttemptParams) -> spec_fn(Heard, RanSaid) -> bool {
    let told = if p.parallel == Some(true) {
        in_parallel(plan_told(p.file_path@, p.line, texts(p.snippets@)))
    } else {
        in_sequence(sequence_told(p.file_path@, p.line, texts(p.snippets@), p.column))
    };
    |h: Heard, o: RanSaid|
        match o {
            Ok(OutcomeView::MultiAttempt(v)) => told(h, Ok(v)),
            Err(TroubleView::Tool(e)) => told(h, Err(e)),
            _ => false,
        }
}

/// A call of `lean_multi_attempt` tells what the tool does.
pub proof fn lemma_multi_attempt_called(p: MultiAttemptParams, s: SettingsView)
    ensures
        ends_well(
            tool_dialogue(ToolCall::MultiAttempt(p), s),
            hearing(),
            unheard(),
            multi_attempt_call_told(p),
        ),
{
    let snippets = texts(p.snippets@);
    let good = multi_attempt_call_told(p);
    let f = multi_attempt_ended();
    let told = if p.parallel == Some(true) {
        lemma_parallel_first(false, p.file_path@, p.line, snippets, p.column);
        in_parallel(plan_told(p.file_path@, p.line, snippets))
    } else {
        lemma_multi_attempt_tells(false, p.file_path@, p.line, snippets, p.column, p.parallel);
        in_sequence(sequence_told(p.file_path@, p.line, snippets, p.column))
    };
    assert forall|h: Heard, o: ToolSaid| #[trigger] told(h, o) implies ends_well(
        f(o),
        hearing(),
        h,
        good,
    ) by {}
    lemma_followed_ends_well(
        multi_attempt_dialogue(false, p.file_path@, p.line, snippets, p.column, p.parallel),
        f,
        hearing(),
        unheard(),
        told,
        good,
    );
}

/// How a call of `lean_goals_batch` is to end: with what came of each file of the places.
pub open spec fn goals_batch_call_told(p: BatchGoalParams) -> spec_fn(Heard, RanSaid) -> bool {
    let told = files_told(files_of(all_views(p.positions@)));
    |h: Heard, o: RanSaid|
        match o {
            Ok(OutcomeView::GoalsBatch { positions, contents }) => positions == all_views(
                p.positions@,
            ) && told(h, contents),
            _ => false,
        }
}

/// A call of `lean_goals_batch` reads the files of its places.
pub proof fn lemma_goals_batch_called(p: BatchGoalParams, s: SettingsView)
    ensures
        ends_well(
            tool_dialogue(ToolCall::GoalsBatch(p), s),
            hearing(),
            unheard(),
            goals_batch_call_told(p),
        ),
{
    let files = files_of(all_views(p.positions@));
    let told = files_told(files);
    let good = goals_batch_call_told(p);
    let f = goals_batch_ended(all_views(p.positions@));
    lemma_files_tells(files);
    assert forall|h: Heard, o: FilesSaid| #[trigger] told(h, o) implies ends_well(
        f(o),
        hearing(),
        h,
        good,
    ) by {}
    lemma_followed_ends_well(files_dialogue(files), f, hearing(), unheard(), told, good);
}

/// How a call of `lean_project_health` is to end.
pub open spec fn project_health_call_told(p: ProjectHealthParams) -> spec_fn(
    Heard,
    RanSaid,
) -> bool {
    let told = health_told(set(p.include_goals, false));
    |h: Heard, o: RanSaid|
        match o {
            Ok(OutcomeView::ProjectHealth(v)) => told(h, Ok(v)),
            Err(TroubleView::Words(words)) => told(h, Err(words)),
            _ => false,
        }
}

/// A call of `lean_project_health` tells what the tool does.
pub proof fn lemma_project_health_called(p: ProjectHealthParams, s: SettingsView)
    ensures
        ends_well(
            tool_dialogue(ToolCall::ProjectHealth(p), s),
            hearing(),
            unheard(),
            project_health_call_told(p),
        ),
{
    let told = health_told(set(p.include_goals, false));
    let good = project_health_call_told(p);
    let f = project_health_ended();
    lemma_health_tells(set(p.include_goals, false));
    assert forall|h: Heard, o: HealthSaid| #[trigger] told(h, o) implies ends_well(
        f(o),
        hearing(),
        h,
        good,
    ) by {}
    lemma_followed_ends_well(
        health_dialogue(set(p.include_goals, false)),
        f,
        hearing(),
        unheard(),
        told,
        good,
    );
}

/// A call of `lean_local_search` searches for its words below its root, and tells what was
/// found.
pub proof fn lemma_local_search_called(p: LocalSearchParams, s: SettingsView)
    ensures
        ends_well(
            tool_dialogue(ToolCall::LocalSearch(p), s),
            hearing(),
            unheard(),
            |h: Heard, o: RanSaid|
                {
                    &&& h.len() == 1
                    &&& h[0].0 == (RequestView::LocalSearch {
                        query: p.query@,
                        limit: wanted(p.limit, 10),
                        root: opt_text(p.project_root),
                    })
                    &&& o == match h[0].1 {
                        ReplyView::Value(v) => Ok::<OutcomeView, TroubleView>(
                            OutcomeView::LocalSearch(v),
                        ),
                        _ => Err(TroubleView::Words(words_of(h[0].1))),
                    }
                },
        ),
{
    reveal_with_fuel(ends_well, 3);
}

/// How a call is to be answered whose tool is to end as `ran` says: with what the tool came
/// to, and where it failed, with the words into which its error was put last.
pub open spec fn answered(ran: spec_fn(Heard, RanSaid) -> bool) -> spec_fn(
    Heard,
    AnswerSaid,
) -> bool {
    |h: Heard, o: AnswerSaid|
        match o {
            Ok(v) => ran(h, Ok(v)),
            Err(words) => {
                ||| ran(h, Err(TroubleView::Words(words)))
                ||| {
                    &&& h.len() > 0
                    &&& h.last().0 matches RequestView::ErrorText { error } && ran(
                        h.drop_last(),
                        Err(TroubleView::Tool(error)),
                    )
                    &&& words == match h.last().1 {
                        ReplyView::Text(text) => text,
                        ReplyView::Failed(text) => text,
                        _ => Seq::empty(),
                    }
                }
            },
        }
}

/// Whatever a tool comes to is the answer to its call.
pub proof fn lemma_answered(
    call: ToolCall,
    s: SettingsView,
    h: Heard,
    ran: spec_fn(Heard, RanSaid) -> bool,
)
    requires
        ends_well(tool_dialogue(call, s), hearing(), h, ran),
    ensures
        ends_well(answer_dialogue(call, s), hearing(), h, answered(ran)),
{
    let good = answered(ran);
    let f = tool_ran();
    assert forall|t: Heard, o: RanSaid| #[trigger] ran(t, o) implies ends_well(
        f(o),
        hearing(),
        t,
        good,
    ) by {
        match o {
            Err(TroubleView::Tool(error)) => {
                let q = RequestView::ErrorText { error };
                let k = error_told();
                assert forall|r: ReplyView|
                    ends_well(#[trigger] k(r), hearing(), t.push((q, r)), good) by {
                    let t1 = t.push((q, r));
                    assert(t1.drop_last() =~= t);
                }
            },
            _ => {},
        }
    }
    lemma_followed_ends_well(tool_dialogue(call, s), f, hearing(), h, ran, good);
}

/// The name of a tool.
pub open spec fn name_of(tool: Tool) -> Seq<char> {
    match tool {
        Tool::Goal => "lean_goal"@,
        Tool::TermGoal => "lean_term_goal"@,
        Tool::Hover => "lean_hover_info"@,
        Tool::Completions => "lean_completions"@,
        Tool::Diagnostics => "lean_diagnostic_messages"@,
        Tool::Outline => "lean_file_outline"@,
        Tool::Declaration => "lean_declaration_file"@,
        Tool::References => "lean_references"@,
        Tool::RunCode => "lean_run_code"@,
        Tool::Verify => "lean_verify"@,
        Tool::Build => "lean_build"@,
        Tool::Profile => "lean_profile_proof"@,
        Tool::LeanSearch => "lean_leansearch"@,
        Tool::Loogle => "lean_loogle"@,
        Tool::LeanFinder => "lean_leanfinder"@,
        Tool::StateSearch => "lean_state_search"@,
        Tool::Premises => "lean_hammer_premise"@,
        Tool::CodeActions => "lean_code_actions"@,
        Tool::Widgets => "lean_get_widgets"@,
        Tool::WidgetSource => "lean_get_widget_source"@,
        Tool::ProofDiff => "lean_proof_diff"@,
        Tool::MultiAttempt => "lean_multi_attempt"@,
        Tool::GoalsBatch => "lean_goals_batch"@,
        Tool::LocalSearch => "lean_local_search"@,
        Tool::ProjectHealth => "lean_project_health"@,
    }
}

/// A tool is found by its own name, and by no other; the scan of a project is found by none.
pub proof fn lemma_found_by_name(name: Seq<char>)
    ensures
        tool_named(name) matches Some(tool) ==> name == name_of(tool) && tool
            != Tool::ProjectHealth,
        tool_named(name) is None ==> forall|tool: Tool|
            tool != Tool::ProjectHealth ==> name != #[trigger] name_of(tool),
{
}

} // verus!
