//! All tools under one type: what they are asked, how they work, and what they
//! come to.

use crate::error::{ErrorView, LeanToolError};
use crate::ids::{fresh_id, is_uuid};
use crate::json::{Json, JsonView};
use crate::models::{
    all_views, opt_text, BatchGoalPosition, BatchGoalPositionView, BuildResult, BuildResultView,
    CodeActionsResult, CodeActionsResultView, CompletionsResult, CompletionsResultView,
    DeclarationInfo, DeclarationInfoView, FileOutline, FileOutlineView, GoalDiffResult,
    GoalDiffResultView, GoalState, GoalStateView, HoverInfo, HoverInfoView, LeanFinderResults,
    LeanFinderResultsView, LeanSearchResults, LeanSearchResultsView, LoogleResults,
    LoogleResultsView, PremiseResults, PremiseResultsView, ProjectHealthResult,
    ProjectHealthResultView, ReferencesResult, ReferencesResultView, RunResult, RunResultView,
    StateSearchResults, StateSearchResultsView, TermGoalState, TermGoalStateView, VerifyResult,
    VerifyResultView, WidgetSourceResult, WidgetSourceResultView, WidgetsResult, WidgetsResultView,
};
use crate::protocol::{
    begins, followed, lemma_followed, waiting_first, Call, Dialogue, Reply, ReplyView, Request,
    RequestView, Turn, Waiting, Waits,
};
use crate::server::{
    BatchGoalParams, BuildParams, CodeActionsParams, CompletionsParams, DeclarationParams,
    DiagnosticParams, FileOutlineParams, GetWidgetsParams, GoalParams, HammerPremiseParams,
    HoverParams, LeanFinderParams, LeanSearchParams, LocalSearchParams, LoogleParams,
    MultiAttemptParams, ProfileProofParams, ProjectHealthParams, ProofDiffParams, ReferencesParams,
    RunCodeParams, StateSearchParams, TermGoalParams, VerifyParams, WidgetSourceParams,
};
use crate::text::{same_text, texts};
use crate::tools::batch_goals::{
    files_dialogue, files_of, files_view, handle_lean_goals_batch, FilesCall, FilesSaid,
};
use crate::tools::code_actions::{
    actions_dialogue, handle_code_actions, ActionsSaid, CodeActionsCall,
};
use crate::tools::completions::{
    completions_dialogue, handle_lean_completions, CompletionsCall, CompletionsSaid,
};
use crate::tools::declarations::{
    declaration_dialogue, handle_declaration_file, DeclarationCall, DeclarationSaid,
};
use crate::tools::diagnostics::{
    diagnostics_dialogue, handle_diagnostics, Diagnostics, DiagnosticsCall, DiagnosticsQueryView,
    DiagnosticsSaid, DiagnosticsView,
};
use crate::tools::goal::{
    goal_dialogue, handle_lean_goal, handle_lean_term_goal, term_goal_dialogue, GoalCall, GoalSaid,
    TermGoalCall, TermGoalSaid,
};
use crate::tools::hover::{handle_lean_hover, hover_dialogue, HoverCall, HoverSaid};
use crate::tools::lake_build::{build_dialogue, handle_build, BuildCall, BuildSaid};
use crate::tools::multi_attempt::{
    handle_multi_attempt, multi_attempt_dialogue, Attempts, AttemptsView, MultiAttempt, ToolSaid,
};
use crate::tools::outline::{handle_file_outline, outline_dialogue, OutlineCall, OutlineSaid};
use crate::tools::profile::{
    handle_profile_proof, profile_dialogue, temp_file, ProfileCall, ProfileSaid, ProofTimes,
    ProofTimesView,
};
use crate::tools::project_health::{handle_project_health, health_dialogue, HealthCall, HealthSaid};
use crate::tools::proof_diff::{
    diff_dialogue, handle_lean_proof_diff, DiffSaid, Places, ProofDiffCall,
};
use crate::tools::references::{
    handle_references, references_dialogue, ReferencesCall, ReferencesSaid,
};
use crate::tools::run_code::{
    run_code_as, run_dialogue, snippet_path, CodeView, RunCodeCall, RunSaid,
};
use crate::tools::search::{
    finder_dialogue, handle_hammer_premise, handle_leanfinder, handle_leansearch,
    handle_loogle_remote, handle_state_search, leansearch_dialogue, loogle_dialogue,
    premise_dialogue, state_dialogue, FinderSaid, LeanFinderCall, LeanSearchCall, LeanSearchSaid,
    LoogleCall, LoogleSaid, PremiseCall, PremiseSaid, SearchConfig, SearchConfigView, StateSaid,
    StateSearchCall,
};
use crate::tools::verify::{handle_verify, verify_dialogue, VerifyCall, VerifySaid};
use crate::tools::widgets::{
    handle_get_widget_source, handle_get_widgets, widget_source_dialogue, widgets_dialogue,
    WidgetSourceCall, WidgetSourceSaid, WidgetsCall, WidgetsSaid,
};
use vstd::prelude::*;
use vstd::string::*;

verus! {

// ---------------------------------------------------------------------------
// Tools and calls
// ---------------------------------------------------------------------------

/// A tool that can be called.
#[derive(Debug, Clone, Copy, PartialEq, Eq, Structural)]
pub enum Tool {
    Goal,
    TermGoal,
    Hover,
    Completions,
    Diagnostics,
    Outline,
    Declaration,
    References,
    MultiAttempt,
    RunCode,
    Verify,
    Build,
    Profile,
    LeanSearch,
    Loogle,
    LeanFinder,
    StateSearch,
    Premises,
    CodeActions,
    Widgets,
    WidgetSource,
    ProofDiff,
    GoalsBatch,
    LocalSearch,
    ProjectHealth,
}

/// A tool with what it is asked.
#[derive(Debug, PartialEq, Eq)]
pub enum ToolCall {
    Goal(GoalParams),
    TermGoal(TermGoalParams),
    Hover(HoverParams),
    Completions(CompletionsParams),
    Diagnostics(DiagnosticParams),
    Outline(FileOutlineParams),
    Declaration(DeclarationParams),
    References(ReferencesParams),
    MultiAttempt(MultiAttemptParams),
    RunCode(RunCodeParams),
    Verify(VerifyParams),
    Build(BuildParams),
    Profile(ProfileProofParams),
    LeanSearch(LeanSearchParams),
    Loogle(LoogleParams),
    LeanFinder(LeanFinderParams),
    StateSearch(StateSearchParams),
    Premises(HammerPremiseParams),
    CodeActions(CodeActionsParams),
    Widgets(GetWidgetsParams),
    WidgetSource(WidgetSourceParams),
    ProofDiff(ProofDiffParams),
    GoalsBatch(BatchGoalParams),
    LocalSearch(LocalSearchParams),
    ProjectHealth(ProjectHealthParams),
}

/// The tool of a call.
pub open spec fn tool_of(call: ToolCall) -> Tool {
    match call {
        ToolCall::Goal(_) => Tool::Goal,
        ToolCall::TermGoal(_) => Tool::TermGoal,
        ToolCall::Hover(_) => Tool::Hover,
        ToolCall::Completions(_) => Tool::Completions,
        ToolCall::Diagnostics(_) => Tool::Diagnostics,
        ToolCall::Outline(_) => Tool::Outline,
        ToolCall::Declaration(_) => Tool::Declaration,
        ToolCall::References(_) => Tool::References,
        ToolCall::MultiAttempt(_) => Tool::MultiAttempt,
        ToolCall::RunCode(_) => Tool::RunCode,
        ToolCall::Verify(_) => Tool::Verify,
        ToolCall::Build(_) => Tool::Build,
        ToolCall::Profile(_) => Tool::Profile,
        ToolCall::LeanSearch(_) => Tool::LeanSearch,
        ToolCall::Loogle(_) => Tool::Loogle,
        ToolCall::LeanFinder(_) => Tool::LeanFinder,
        ToolCall::StateSearch(_) => Tool::StateSearch,
        ToolCall::Premises(_) => Tool::Premises,
        ToolCall::CodeActions(_) => Tool::CodeActions,
        ToolCall::Widgets(_) => Tool::Widgets,
        ToolCall::WidgetSource(_) => Tool::WidgetSource,
        ToolCall::ProofDiff(_) => Tool::ProofDiff,
        ToolCall::GoalsBatch(_) => Tool::GoalsBatch,
        ToolCall::LocalSearch(_) => Tool::LocalSearch,
        ToolCall::ProjectHealth(_) => Tool::ProjectHealth,
    }
}

impl ToolCall {
    /// The tool of the call.
    pub fn tool(&self) -> (r: Tool)
        ensures
            r == tool_of(*self),
    {
        match self {
            ToolCall::Goal(_) => Tool::Goal,
            ToolCall::TermGoal(_) => Tool::TermGoal,
            ToolCall::Hover(_) => Tool::Hover,
            ToolCall::Completions(_) => Tool::Completions,
            ToolCall::Diagnostics(_) => Tool::Diagnostics,
            ToolCall::Outline(_) => Tool::Outline,
            ToolCall::Declaration(_) => Tool::Declaration,
            ToolCall::References(_) => Tool::References,
            ToolCall::MultiAttempt(_) => Tool::MultiAttempt,
            ToolCall::RunCode(_) => Tool::RunCode,
            ToolCall::Verify(_) => Tool::Verify,
            ToolCall::Build(_) => Tool::Build,
            ToolCall::Profile(_) => Tool::Profile,
            ToolCall::LeanSearch(_) => Tool::LeanSearch,
            ToolCall::Loogle(_) => Tool::Loogle,
            ToolCall::LeanFinder(_) => Tool::LeanFinder,
            ToolCall::StateSearch(_) => Tool::StateSearch,
            ToolCall::Premises(_) => Tool::Premises,
            ToolCall::CodeActions(_) => Tool::CodeActions,
            ToolCall::Widgets(_) => Tool::Widgets,
            ToolCall::WidgetSource(_) => Tool::WidgetSource,
            ToolCall::ProofDiff(_) => Tool::ProofDiff,
            ToolCall::GoalsBatch(_) => Tool::GoalsBatch,
            ToolCall::LocalSearch(_) => Tool::LocalSearch,
            ToolCall::ProjectHealth(_) => Tool::ProjectHealth,
        }
    }
}

/// The tool with a name, of those that can be called in a batch.
pub open spec fn tool_named(name: Seq<char>) -> Option<Tool> {
    if name == "lean_goal"@ {
        Some(Tool::Goal)
    } else if name == "lean_term_goal"@ {
        Some(Tool::TermGoal)
    } else if name == "lean_hover_info"@ {
        Some(Tool::Hover)
    } else if name == "lean_completions"@ {
        Some(Tool::Completions)
    } else if name == "lean_diagnostic_messages"@ {
        Some(Tool::Diagnostics)
    } else if name == "lean_file_outline"@ {
        Some(Tool::Outline)
    } else if name == "lean_declaration_file"@ {
        Some(Tool::Declaration)
    } else if name == "lean_references"@ {
        Some(Tool::References)
    } else if name == "lean_multi_attempt"@ {
        Some(Tool::MultiAttempt)
    } else if name == "lean_run_code"@ {
        Some(Tool::RunCode)
    } else if name == "lean_verify"@ {
        Some(Tool::Verify)
    } else if name == "lean_build"@ {
        Some(Tool::Build)
    } else if name == "lean_profile_proof"@ {
        Some(Tool::Profile)
    } else if name == "lean_leansearch"@ {
        Some(Tool::LeanSearch)
    } else if name == "lean_loogle"@ {
        Some(Tool::Loogle)
    } else if name == "lean_leanfinder"@ {
        Some(Tool::LeanFinder)
    } else if name == "lean_state_search"@ {
        Some(Tool::StateSearch)
    } else if name == "lean_hammer_premise"@ {
        Some(Tool::Premises)
    } else if name == "lean_code_actions"@ {
        Some(Tool::CodeActions)
    } else if name == "lean_get_widgets"@ {
        Some(Tool::Widgets)
    } else if name == "lean_get_widget_source"@ {
        Some(Tool::WidgetSource)
    } else if name == "lean_proof_diff"@ {
        Some(Tool::ProofDiff)
    } else if name == "lean_goals_batch"@ {
        Some(Tool::GoalsBatch)
    } else if name == "lean_local_search"@ {
        Some(Tool::LocalSearch)
    } else {
        None
    }
}

/// The tool with a name, of those that can be called in a batch.
pub fn find_tool(name: &str) -> (r: Option<Tool>)
    ensures
        r == tool_named(name@),
{
    if same_text(name, "lean_goal") {
        Some(Tool::Goal)
    } else if same_text(name, "lean_term_goal") {
        Some(Tool::TermGoal)
    } else if same_text(name, "lean_hover_info") {
        Some(Tool::Hover)
    } else if same_text(name, "lean_completions") {
        Some(Tool::Completions)
    } else if same_text(name, "lean_diagnostic_messages") {
        Some(Tool::Diagnostics)
    } else if same_text(name, "lean_file_outline") {
        Some(Tool::Outline)
    } else if same_text(name, "lean_declaration_file") {
        Some(Tool::Declaration)
    } else if same_text(name, "lean_references") {
        Some(Tool::References)
    } else if same_text(name, "lean_multi_attempt") {
        Some(Tool::MultiAttempt)
    } else if same_text(name, "lean_run_code") {
        Some(Tool::RunCode)
    } else if same_text(name, "lean_verify") {
        Some(Tool::Verify)
    } else if same_text(name, "lean_build") {
        Some(Tool::Build)
    } else if same_text(name, "lean_profile_proof") {
        Some(Tool::Profile)
    } else if same_text(name, "lean_leansearch") {
        Some(Tool::LeanSearch)
    } else if same_text(name, "lean_loogle") {
        Some(Tool::Loogle)
    } else if same_text(name, "lean_leanfinder") {
        Some(Tool::LeanFinder)
    } else if same_text(name, "lean_state_search") {
        Some(Tool::StateSearch)
    } else if same_text(name, "lean_hammer_premise") {
        Some(Tool::Premises)
    } else if same_text(name, "lean_code_actions") {
        Some(Tool::CodeActions)
    } else if same_text(name, "lean_get_widgets") {
        Some(Tool::Widgets)
    } else if same_text(name, "lean_get_widget_source") {
        Some(Tool::WidgetSource)
    } else if same_text(name, "lean_proof_diff") {
        Some(Tool::ProofDiff)
    } else if same_text(name, "lean_goals_batch") {
        Some(Tool::GoalsBatch)
    } else if same_text(name, "lean_local_search") {
        Some(Tool::LocalSearch)
    } else {
        None
    }
}

// ---------------------------------------------------------------------------
// Settings
// ---------------------------------------------------------------------------

/// What the tools go by besides what they are asked.
#[derive(Debug, PartialEq, Eq)]
pub struct Settings {
    /// Where the search services are.
    pub config: SearchConfig,
    /// The limit on elaboration that the user wants.
    pub heartbeats: Option<String>,
    /// The number of the process.
    pub process: u32,
    /// What tells the files of this call from those of others.
    pub id: String,
}

/// What [`Settings`] say.
pub struct SettingsView {
    pub config: SearchConfigView,
    pub heartbeats: Option<Seq<char>>,
    pub process: u32,
    pub id: Seq<char>,
}

impl View for Settings {
    type V = SettingsView;

    open spec fn view(&self) -> SettingsView {
        SettingsView {
            config: self.config@,
            heartbeats: opt_text(self.heartbeats),
            process: self.process,
            id: self.id@,
        }
    }
}

/// The same settings for another call.
pub open spec fn settings_for(s: SettingsView, id: Seq<char>) -> SettingsView {
    SettingsView { id, ..s }
}

/// A copy of a setting.
fn copied(s: &Option<String>) -> (r: Option<String>)
    ensures
        opt_text(r) == opt_text(*s),
{
    match s {
        Some(s) => Some(s.clone()),
        None => None,
    }
}

impl SearchConfig {
    /// The same places.
    pub fn duplicate(&self) -> (r: SearchConfig)
        ensures
            r@ == self@,
    {
        SearchConfig {
            leansearch_url: self.leansearch_url.clone(),
            loogle_url: self.loogle_url.clone(),
            leanfinder_url: self.leanfinder_url.clone(),
            state_search_url: self.state_search_url.clone(),
            hammer_premise_url: self.hammer_premise_url.clone(),
        }
    }
}

impl Settings {
    /// Settings for one call.
    pub fn for_one_call(config: SearchConfig, heartbeats: Option<String>, process: u32) -> (r:
        Settings)
        ensures
            is_uuid(r@.id),
            r@ == (SettingsView {
                config: config@,
                heartbeats: opt_text(heartbeats),
                process,
                id: r@.id,
            }),
    {
        Settings { config, heartbeats, process, id: fresh_id() }
    }

    /// The same settings for another call.
    pub fn for_another_call(&self) -> (r: Settings)
        ensures
            is_uuid(r@.id),
            r@ == settings_for(self@, r@.id),
    {
        Settings {
            config: self.config.duplicate(),
            heartbeats: copied(&self.heartbeats),
            process: self.process,
            id: fresh_id(),
        }
    }
}

/// A number that was asked for, or what stands in for it.
pub open spec fn number_or(n: Option<usize>, default: usize) -> usize {
    match n {
        Some(n) => n,
        None => default,
    }
}

/// A number that was asked for, or what stands in for it.
fn or_number(n: Option<usize>, default: usize) -> (r: usize)
    ensures
        r == number_or(n, default),
{
    match n {
        Some(n) => n,
        None => default,
    }
}

/// A flag that was set, or what stands in for it.
pub open spec fn flag_or(b: Option<bool>, default: bool) -> bool {
    match b {
        Some(b) => b,
        None => default,
    }
}

/// A flag that was set, or what stands in for it.
pub fn or_flag(b: Option<bool>, default: bool) -> (r: bool)
    ensures
        r == flag_or(b, default),
{
    match b {
        Some(b) => b,
        None => default,
    }
}

/// A text that was given, or what stands in for it.
pub open spec fn text_or(s: Option<Seq<char>>, default: Seq<char>) -> Seq<char> {
    match s {
        Some(s) => s,
        None => default,
    }
}

// ---------------------------------------------------------------------------
// Outcomes
// ---------------------------------------------------------------------------

/// What a tool comes to.
#[derive(Debug, PartialEq, Eq)]
pub enum ToolOutcome {
    Goal(GoalState),
    TermGoal(TermGoalState),
    Hover(HoverInfo),
    Completions(CompletionsResult),
    Diagnostics(Diagnostics),
    Outline(FileOutline),
    Declaration(DeclarationInfo),
    References(ReferencesResult),
    MultiAttempt(Attempts),
    RunCode(RunResult),
    Verify(VerifyResult),
    Build(BuildResult),
    Profile(ProofTimes),
    LeanSearch(LeanSearchResults),
    Loogle(LoogleResults),
    LeanFinder(LeanFinderResults),
    StateSearch(StateSearchResults),
    Premises(PremiseResults),
    CodeActions(CodeActionsResult),
    Widgets(WidgetsResult),
    WidgetSource(WidgetSourceResult),
    ProofDiff(GoalDiffResult),
    /// What came of the files whose goals are asked for at many positions.
    GoalsBatch { positions: Vec<BatchGoalPosition>, contents: Vec<Result<String, String>> },
    LocalSearch(Json),
    ProjectHealth(ProjectHealthResult),
}

/// What a [`ToolOutcome`] says.
pub enum OutcomeView {
    Goal(GoalStateView),
    TermGoal(TermGoalStateView),
    Hover(HoverInfoView),
    Completions(CompletionsResultView),
    Diagnostics(DiagnosticsView),
    Outline(FileOutlineView),
    Declaration(DeclarationInfoView),
    References(ReferencesResultView),
    MultiAttempt(AttemptsView),
    RunCode(RunResultView),
    Verify(VerifyResultView),
    Build(BuildResultView),
    Profile(ProofTimesView),
    LeanSearch(LeanSearchResultsView),
    Loogle(LoogleResultsView),
    LeanFinder(LeanFinderResultsView),
    StateSearch(StateSearchResultsView),
    Premises(PremiseResultsView),
    CodeActions(CodeActionsResultView),
    Widgets(WidgetsResultView),
    WidgetSource(WidgetSourceResultView),
    ProofDiff(GoalDiffResultView),
    GoalsBatch { positions: Seq<BatchGoalPositionView>, contents: FilesSaid },
    LocalSearch(JsonView),
    ProjectHealth(ProjectHealthResultView),
}

impl View for ToolOutcome {
    type V = OutcomeView;

    open spec fn view(&self) -> OutcomeView {
        match *self {
            ToolOutcome::Goal(o) => OutcomeView::Goal(o@),
            ToolOutcome::TermGoal(o) => OutcomeView::TermGoal(o@),
            ToolOutcome::Hover(o) => OutcomeView::Hover(o@),
            ToolOutcome::Completions(o) => OutcomeView::Completions(o@),
            ToolOutcome::Diagnostics(o) => OutcomeView::Diagnostics(o@),
            ToolOutcome::Outline(o) => OutcomeView::Outline(o@),
            ToolOutcome::Declaration(o) => OutcomeView::Declaration(o@),
            ToolOutcome::References(o) => OutcomeView::References(o@),
            ToolOutcome::MultiAttempt(o) => OutcomeView::MultiAttempt(o@),
            ToolOutcome::RunCode(o) => OutcomeView::RunCode(o@),
            ToolOutcome::Verify(o) => OutcomeView::Verify(o@),
            ToolOutcome::Build(o) => OutcomeView::Build(o@),
            ToolOutcome::Profile(o) => OutcomeView::Profile(o@),
            ToolOutcome::LeanSearch(o) => OutcomeView::LeanSearch(o@),
            ToolOutcome::Loogle(o) => OutcomeView::Loogle(o@),
            ToolOutcome::LeanFinder(o) => OutcomeView::LeanFinder(o@),
            ToolOutcome::StateSearch(o) => OutcomeView::StateSearch(o@),
            ToolOutcome::Premises(o) => OutcomeView::Premises(o@),
            ToolOutcome::CodeActions(o) => OutcomeView::CodeActions(o@),
            ToolOutcome::Widgets(o) => OutcomeView::Widgets(o@),
            ToolOutcome::WidgetSource(o) => OutcomeView::WidgetSource(o@),
            ToolOutcome::ProofDiff(o) => OutcomeView::ProofDiff(o@),
            ToolOutcome::GoalsBatch { positions, contents } => OutcomeView::GoalsBatch {
                positions: all_views(positions@),
                contents: files_view(contents@),
            },
            ToolOutcome::LocalSearch(v) => OutcomeView::LocalSearch(v@),
            ToolOutcome::ProjectHealth(o) => OutcomeView::ProjectHealth(o@),
        }
    }
}

/// What went wrong with a tool.
#[derive(Debug, PartialEq, Eq)]
pub enum Trouble {
    /// An error of the tool.
    Tool(LeanToolError),
    /// What the user is to be told.
    Words(String),
}

/// What a [`Trouble`] says.
pub enum TroubleView {
    Tool(ErrorView),
    Words(Seq<char>),
}

impl View for Trouble {
    type V = TroubleView;

    open spec fn view(&self) -> TroubleView {
        match *self {
            Trouble::Tool(e) => TroubleView::Tool(e@),
            Trouble::Words(s) => TroubleView::Words(s@),
        }
    }
}

/// What a tool comes to, or what went wrong.
pub type RanSaid = Result<OutcomeView, TroubleView>;

/// The end of [`Tool::Goal`].
pub open spec fn goal_ended() -> spec_fn(GoalSaid) -> Dialogue<RanSaid> {
    |s: GoalSaid|
        Dialogue::Finish(
            match s {
                Ok(v) => Ok(OutcomeView::Goal(v)),
                Err(e) => Err(TroubleView::Tool(e)),
            },
        )
}

/// The end of [`Tool::TermGoal`].
pub open spec fn term_goal_ended() -> spec_fn(TermGoalSaid) -> Dialogue<RanSaid> {
    |s: TermGoalSaid|
        Dialogue::Finish(
            match s {
                Ok(v) => Ok(OutcomeView::TermGoal(v)),
                Err(e) => Err(TroubleView::Tool(e)),
            },
        )
}

/// The end of [`Tool::Hover`].
pub open spec fn hover_ended() -> spec_fn(HoverSaid) -> Dialogue<RanSaid> {
    |s: HoverSaid|
        Dialogue::Finish(
            match s {
                Ok(v) => Ok(OutcomeView::Hover(v)),
                Err(e) => Err(TroubleView::Tool(e)),
            },
        )
}

/// The end of [`Tool::Completions`].
pub open spec fn completions_ended() -> spec_fn(CompletionsSaid) -> Dialogue<RanSaid> {
    |s: CompletionsSaid|
        Dialogue::Finish(
            match s {
                Ok(v) => Ok(OutcomeView::Completions(v)),
                Err(e) => Err(TroubleView::Tool(e)),
            },
        )
}

/// The end of [`Tool::Diagnostics`].
pub open spec fn diagnostics_ended() -> spec_fn(DiagnosticsSaid) -> Dialogue<RanSaid> {
    |s: DiagnosticsSaid|
        Dialogue::Finish(
            match s {
                Ok(v) => Ok(OutcomeView::Diagnostics(v)),
                Err(e) => Err(TroubleView::Tool(e)),
            },
        )
}

/// The end of [`Tool::Outline`].
pub open spec fn outline_ended() -> spec_fn(OutlineSaid) -> Dialogue<RanSaid> {
    |s: OutlineSaid|
        Dialogue::Finish(
            match s {
                Ok(v) => Ok(OutcomeView::Outline(v)),
                Err(e) => Err(TroubleView::Tool(e)),
            },
        )
}

/// The end of [`Tool::Declaration`].
pub open spec fn declaration_ended() -> spec_fn(DeclarationSaid) -> Dialogue<RanSaid> {
    |s: DeclarationSaid|
        Dialogue::Finish(
            match s {
                Ok(v) => Ok(OutcomeView::Declaration(v)),
                Err(e) => Err(TroubleView::Tool(e)),
            },
        )
}

/// The end of [`Tool::References`].
pub open spec fn references_ended() -> spec_fn(ReferencesSaid) -> Dialogue<RanSaid> {
    |s: ReferencesSaid|
        Dialogue::Finish(
            match s {
                Ok(v) => Ok(OutcomeView::References(v)),
                Err(e) => Err(TroubleView::Tool(e)),
            },
        )
}

/// The end of [`Tool::MultiAttempt`].
pub open spec fn multi_attempt_ended() -> spec_fn(ToolSaid) -> Dialogue<RanSaid> {
    |s: ToolSaid|
        Dialogue::Finish(
            match s {
                Ok(v) => Ok(OutcomeView::MultiAttempt(v)),
                Err(e) => Err(TroubleView::Tool(e)),
            },
        )
}

/// The end of [`Tool::RunCode`].
pub open spec fn run_code_ended() -> spec_fn(RunSaid) -> Dialogue<RanSaid> {
    |s: RunSaid|
        Dialogue::Finish(
            match s {
                Ok(v) => Ok(OutcomeView::RunCode(v)),
                Err(e) => Err(TroubleView::Tool(e)),
            },
        )
}

/// The end of [`Tool::Verify`].
pub open spec fn verify_ended() -> spec_fn(VerifySaid) -> Dialogue<RanSaid> {
    |s: VerifySaid|
        Dialogue::Finish(
            match s {
                Ok(v) => Ok(OutcomeView::Verify(v)),
                Err(e) => Err(TroubleView::Tool(e)),
            },
        )
}

/// The end of [`Tool::Build`].
pub open spec fn build_ended() -> spec_fn(BuildSaid) -> Dialogue<RanSaid> {
    |s: BuildSaid|
        Dialogue::Finish(
            match s {
                Ok(v) => Ok(OutcomeView::Build(v)),
                Err(e) => Err(TroubleView::Tool(e)),
            },
        )
}

/// The end of [`Tool::Profile`].
pub open spec fn profile_ended() -> spec_fn(ProfileSaid) -> Dialogue<RanSaid> {
    |s: ProfileSaid|
        Dialogue::Finish(
            match s {
                Ok(v) => Ok(OutcomeView::Profile(v)),
                Err(e) => Err(TroubleView::Tool(e)),
            },
        )
}

/// The end of [`Tool::LeanSearch`].
pub open spec fn lean_search_ended() -> spec_fn(LeanSearchSaid) -> Dialogue<RanSaid> {
    |s: LeanSearchSaid|
        Dialogue::Finish(
            match s {
                Ok(v) => Ok(OutcomeView::LeanSearch(v)),
                Err(e) => Err(TroubleView::Tool(e)),
            },
        )
}

/// The end of [`Tool::Loogle`].
pub open spec fn loogle_ended() -> spec_fn(LoogleSaid) -> Dialogue<RanSaid> {
    |s: LoogleSaid|
        Dialogue::Finish(
            match s {
                Ok(v) => Ok(OutcomeView::Loogle(v)),
                Err(e) => Err(TroubleView::Tool(e)),
            },
        )
}

/// The end of [`Tool::LeanFinder`].
pub open spec fn lean_finder_ended() -> spec_fn(FinderSaid) -> Dialogue<RanSaid> {
    |s: FinderSaid|
        Dialogue::Finish(
            match s {
                Ok(v) => Ok(OutcomeView::LeanFinder(v)),
                Err(e) => Err(TroubleView::Tool(e)),
            },
        )
}

/// The end of [`Tool::StateSearch`].
pub open spec fn state_search_ended() -> spec_fn(StateSaid) -> Dialogue<RanSaid> {
    |s: StateSaid|
        Dialogue::Finish(
            match s {
                Ok(v) => Ok(OutcomeView::StateSearch(v)),
                Err(e) => Err(TroubleView::Tool(e)),
            },
        )
}

/// The end of [`Tool::Premises`].
pub open spec fn premises_ended() -> spec_fn(PremiseSaid) -> Dialogue<RanSaid> {
    |s: PremiseSaid|
        Dialogue::Finish(
            match s {
                Ok(v) => Ok(OutcomeView::Premises(v)),
                Err(e) => Err(TroubleView::Tool(e)),
            },
        )
}

/// The end of [`Tool::CodeActions`].
pub open spec fn code_actions_ended() -> spec_fn(ActionsSaid) -> Dialogue<RanSaid> {
    |s: ActionsSaid|
        Dialogue::Finish(
            match s {
                Ok(v) => Ok(OutcomeView::CodeActions(v)),
                Err(e) => Err(TroubleView::Tool(e)),
            },
        )
}

/// The end of [`Tool::Widgets`].
pub open spec fn widgets_ended() -> spec_fn(WidgetsSaid) -> Dialogue<RanSaid> {
    |s: WidgetsSaid|
        Dialogue::Finish(
            match s {
                Ok(v) => Ok(OutcomeView::Widgets(v)),
                Err(e) => Err(TroubleView::Tool(e)),
            },
        )
}

/// The end of [`Tool::WidgetSource`].
pub open spec fn widget_source_ended() -> spec_fn(WidgetSourceSaid) -> Dialogue<RanSaid> {
    |s: WidgetSourceSaid|
        Dialogue::Finish(
            match s {
                Ok(v) => Ok(OutcomeView::WidgetSource(v)),
                Err(e) => Err(TroubleView::Tool(e)),
            },
        )
}

/// The end of [`Tool::ProofDiff`].
pub open spec fn proof_diff_ended() -> spec_fn(DiffSaid) -> Dialogue<RanSaid> {
    |s: DiffSaid|
        Dialogue::Finish(
            match s {
                Ok(v) => Ok(OutcomeView::ProofDiff(v)),
                Err(e) => Err(TroubleView::Tool(e)),
            },
        )
}

/// The end of [`Tool::GoalsBatch`].
pub open spec fn goals_batch_ended(positions: Seq<BatchGoalPositionView>) -> spec_fn(
    FilesSaid,
) -> Dialogue<RanSaid> {
    |s: FilesSaid|
        Dialogue::Finish(Ok(OutcomeView::GoalsBatch { positions, contents: s }))
}

/// The end of [`Tool::ProjectHealth`].
pub open spec fn project_health_ended() -> spec_fn(HealthSaid) -> Dialogue<RanSaid> {
    |s: HealthSaid|
        Dialogue::Finish(
            match s {
                Ok(v) => Ok(OutcomeView::ProjectHealth(v)),
                Err(m) => Err(TroubleView::Words(m)),
            },
        )
}

/// After the project was searched.
pub open spec fn local_search_done() -> Waiting<RanSaid> {
    |r: ReplyView|
        Dialogue::Finish(
            match r {
                ReplyView::Value(v) => Ok(OutcomeView::LocalSearch(v)),
                _ => Err(TroubleView::Words(r.trouble())),
            },
        )
}

// ---------------------------------------------------------------------------
// Tools at work
// ---------------------------------------------------------------------------

/// The whole of a call.
pub open spec fn tool_dialogue(call: ToolCall, s: SettingsView) -> Dialogue<RanSaid> {
    match call {
        ToolCall::Goal(p) => followed(
            goal_dialogue(p.file_path@, p.line, p.column),
            goal_ended(),
        ),
        ToolCall::TermGoal(p) => followed(
            term_goal_dialogue(p.file_path@, p.line, p.column),
            term_goal_ended(),
        ),
        ToolCall::Hover(p) => followed(
            hover_dialogue(p.file_path@, p.line, p.column),
            hover_ended(),
        ),
        ToolCall::Completions(p) => followed(
            completions_dialogue(p.file_path@, p.line, p.column, number_or(p.max_completions, 32)),
            completions_ended(),
        ),
        ToolCall::Diagnostics(p) => followed(
            diagnostics_dialogue(
                DiagnosticsQueryView {
                    path: p.file_path@,
                    start_line: p.start_line,
                    end_line: p.end_line,
                    declaration: opt_text(p.declaration_name),
                    interactive: flag_or(p.interactive, false),
                    severity: opt_text(p.severity),
                },
            ),
            diagnostics_ended(),
        ),
        ToolCall::Outline(p) => followed(
            outline_dialogue(p.file_path@, p.max_declarations),
            outline_ended(),
        ),
        ToolCall::Declaration(p) => followed(
            declaration_dialogue(p.file_path@, p.symbol@),
            declaration_ended(),
        ),
        ToolCall::References(p) => followed(
            references_dialogue(p.file_path@, p.line, p.column),
            references_ended(),
        ),
        ToolCall::MultiAttempt(p) => followed(
            multi_attempt_dialogue(
                false,
                p.file_path@,
                p.line,
                texts(p.snippets@),
                p.column,
                p.parallel,
            ),
            multi_attempt_ended(),
        ),
        ToolCall::RunCode(p) => followed(
            run_dialogue(
                snippet_path(s.id),
                CodeView { code: p.code@, context_path: None, heartbeats: s.heartbeats },
            ),
            run_code_ended(),
        ),
        ToolCall::Verify(p) => followed(
            verify_dialogue(p.file_path@, p.theorem_name@, flag_or(p.scan_source, true)),
            verify_ended(),
        ),
        ToolCall::Build(p) => followed(
            build_dialogue(flag_or(p.clean, false), number_or(p.output_lines, 20)),
            build_ended(),
        ),
        ToolCall::Profile(p) => followed(
            profile_dialogue(
                p.file_path@,
                p.line,
                temp_file(s.process),
                text_or(opt_text(p.timeout), "30"@),
            ),
            profile_ended(),
        ),
        ToolCall::LeanSearch(p) => followed(
            leansearch_dialogue(
                p.query@,
                number_or(p.num_results, 5) as nat,
                s.config.leansearch_url,
            ),
            lean_search_ended(),
        ),
        ToolCall::Loogle(p) => followed(
            loogle_dialogue(p.query@, number_or(p.num_results, 8) as nat, s.config.loogle_url),
            loogle_ended(),
        ),
        ToolCall::LeanFinder(p) => followed(
            finder_dialogue(p.query@, number_or(p.num_results, 5) as nat, s.config.leanfinder_url),
            lean_finder_ended(),
        ),
        ToolCall::StateSearch(p) => followed(
            state_dialogue(
                p.file_path@,
                p.line,
                p.column,
                number_or(p.num_results, 5) as nat,
                s.config.state_search_url,
            ),
            state_search_ended(),
        ),
        ToolCall::Premises(p) => followed(
            premise_dialogue(
                p.file_path@,
                p.line,
                p.column,
                number_or(p.num_results, 32) as nat,
                s.config.hammer_premise_url,
            ),
            premises_ended(),
        ),
        ToolCall::CodeActions(p) => followed(
            actions_dialogue(p.file_path@, p.line),
            code_actions_ended(),
        ),
        ToolCall::Widgets(p) => followed(
            widgets_dialogue(p.file_path@, p.line, p.column),
            widgets_ended(),
        ),
        ToolCall::WidgetSource(p) => followed(
            widget_source_dialogue(p.file_path@, p.javascript_hash@),
            widget_source_ended(),
        ),
        ToolCall::ProofDiff(p) => followed(
            diff_dialogue(
                p.file_path@,
                Places {
                    before_line: p.before_line,
                    before_column: p.before_column,
                    after_line: p.after_line,
                    after_column: p.after_column,
                },
            ),
            proof_diff_ended(),
        ),
        ToolCall::GoalsBatch(p) => followed(
            files_dialogue(files_of(all_views(p.positions@))),
            goals_batch_ended(all_views(p.positions@)),
        ),
        ToolCall::LocalSearch(p) => Dialogue::Ask(
            RequestView::LocalSearch {
                query: p.query@,
                limit: number_or(p.limit, 10),
                root: opt_text(p.project_root),
            },
            local_search_done(),
        ),
        ToolCall::ProjectHealth(p) => followed(
            health_dialogue(flag_or(p.include_goals, false)),
            project_health_ended(),
        ),
    }
}

/// A tool at work.
pub enum ToolRun {
    Goal(GoalCall),
    TermGoal(TermGoalCall),
    Hover(HoverCall),
    Completions(CompletionsCall),
    Diagnostics(DiagnosticsCall),
    Outline(OutlineCall),
    Declaration(DeclarationCall),
    References(ReferencesCall),
    MultiAttempt(MultiAttempt),
    RunCode(RunCodeCall),
    Verify(VerifyCall),
    Build(BuildCall),
    Profile(ProfileCall),
    LeanSearch(LeanSearchCall),
    Loogle(LoogleCall),
    LeanFinder(LeanFinderCall),
    StateSearch(StateSearchCall),
    Premises(PremiseCall),
    CodeActions(CodeActionsCall),
    Widgets(WidgetsCall),
    WidgetSource(WidgetSourceCall),
    ProofDiff(ProofDiffCall),
    GoalsBatch { call: FilesCall, positions: Vec<BatchGoalPosition> },
    /// Waits for the search in the project.
    LocalSearch,
    ProjectHealth(HealthCall),
}

impl Waits for ToolRun {
    type Out = Result<ToolOutcome, Trouble>;

    type Said = RanSaid;

    open spec fn said(o: Self::Out) -> RanSaid {
        match o {
            Ok(v) => Ok(v@),
            Err(e) => Err(e@),
        }
    }

    open spec fn valid(self) -> bool {
        match self {
            ToolRun::Goal(c) => c.valid(),
            ToolRun::TermGoal(c) => c.valid(),
            ToolRun::Hover(c) => c.valid(),
            ToolRun::Completions(c) => c.valid(),
            ToolRun::Diagnostics(c) => c.valid(),
            ToolRun::Outline(c) => c.valid(),
            ToolRun::Declaration(c) => c.valid(),
            ToolRun::References(c) => c.valid(),
            ToolRun::MultiAttempt(c) => c.valid(),
            ToolRun::RunCode(c) => c.valid(),
            ToolRun::Verify(c) => c.valid(),
            ToolRun::Build(c) => c.valid(),
            ToolRun::Profile(c) => c.valid(),
            ToolRun::LeanSearch(c) => c.valid(),
            ToolRun::Loogle(c) => c.valid(),
            ToolRun::LeanFinder(c) => c.valid(),
            ToolRun::StateSearch(c) => c.valid(),
            ToolRun::Premises(c) => c.valid(),
            ToolRun::CodeActions(c) => c.valid(),
            ToolRun::Widgets(c) => c.valid(),
            ToolRun::WidgetSource(c) => c.valid(),
            ToolRun::ProofDiff(c) => c.valid(),
            ToolRun::GoalsBatch { call, positions } => call.valid(),
            ToolRun::LocalSearch => true,
            ToolRun::ProjectHealth(c) => c.valid(),
        }
    }

    open spec fn waiting(self) -> Waiting<RanSaid> {
        match self {
            ToolRun::Goal(c) => waiting_first(c.waiting(), goal_ended()),
            ToolRun::TermGoal(c) => waiting_first(c.waiting(), term_goal_ended()),
            ToolRun::Hover(c) => waiting_first(c.waiting(), hover_ended()),
            ToolRun::Completions(c) => waiting_first(c.waiting(), completions_ended()),
            ToolRun::Diagnostics(c) => waiting_first(c.waiting(), diagnostics_ended()),
            ToolRun::Outline(c) => waiting_first(c.waiting(), outline_ended()),
            ToolRun::Declaration(c) => waiting_first(c.waiting(), declaration_ended()),
            ToolRun::References(c) => waiting_first(c.waiting(), references_ended()),
            ToolRun::MultiAttempt(c) => waiting_first(c.waiting(), multi_attempt_ended()),
            ToolRun::RunCode(c) => waiting_first(c.waiting(), run_code_ended()),
            ToolRun::Verify(c) => waiting_first(c.waiting(), verify_ended()),
            ToolRun::Build(c) => waiting_first(c.waiting(), build_ended()),
            ToolRun::Profile(c) => waiting_first(c.waiting(), profile_ended()),
            ToolRun::LeanSearch(c) => waiting_first(c.waiting(), lean_search_ended()),
            ToolRun::Loogle(c) => waiting_first(c.waiting(), loogle_ended()),
            ToolRun::LeanFinder(c) => waiting_first(c.waiting(), lean_finder_ended()),
            ToolRun::StateSearch(c) => waiting_first(c.waiting(), state_search_ended()),
            ToolRun::Premises(c) => waiting_first(c.waiting(), premises_ended()),
            ToolRun::CodeActions(c) => waiting_first(c.waiting(), code_actions_ended()),
            ToolRun::Widgets(c) => waiting_first(c.waiting(), widgets_ended()),
            ToolRun::WidgetSource(c) => waiting_first(c.waiting(), widget_source_ended()),
            ToolRun::ProofDiff(c) => waiting_first(c.waiting(), proof_diff_ended()),
            ToolRun::GoalsBatch { call, positions } => waiting_first(
                call.waiting(),
                goals_batch_ended(all_views(positions@)),
            ),
            ToolRun::LocalSearch => local_search_done(),
            ToolRun::ProjectHealth(c) => waiting_first(c.waiting(), project_health_ended()),
        }
    }

    open spec fn admits(self, r: ReplyView) -> bool {
        match self {
            ToolRun::Goal(c) => c.admits(r),
            ToolRun::TermGoal(c) => c.admits(r),
            ToolRun::Hover(c) => c.admits(r),
            ToolRun::Completions(c) => c.admits(r),
            ToolRun::Diagnostics(c) => c.admits(r),
            ToolRun::Outline(c) => c.admits(r),
            ToolRun::Declaration(c) => c.admits(r),
            ToolRun::References(c) => c.admits(r),
            ToolRun::MultiAttempt(c) => c.admits(r),
            ToolRun::RunCode(c) => c.admits(r),
            ToolRun::Verify(c) => c.admits(r),
            ToolRun::Build(c) => c.admits(r),
            ToolRun::Profile(c) => c.admits(r),
            ToolRun::LeanSearch(c) => c.admits(r),
            ToolRun::Loogle(c) => c.admits(r),
            ToolRun::LeanFinder(c) => c.admits(r),
            ToolRun::StateSearch(c) => c.admits(r),
            ToolRun::Premises(c) => c.admits(r),
            ToolRun::CodeActions(c) => c.admits(r),
            ToolRun::Widgets(c) => c.admits(r),
            ToolRun::WidgetSource(c) => c.admits(r),
            ToolRun::ProofDiff(c) => c.admits(r),
            ToolRun::GoalsBatch { call, positions } => call.admits(r),
            ToolRun::LocalSearch => true,
            ToolRun::ProjectHealth(c) => c.admits(r),
        }
    }
}

impl ToolRun {
    /// Goes on with [`Tool::Goal`].
    fn goal(t: Turn<GoalCall, Result<GoalState, LeanToolError>>) -> (r: Turn<
        ToolRun,
        Result<ToolOutcome, Trouble>,
    >)
        ensures
            forall|d: Dialogue<GoalSaid>| #[trigger]
                begins(t, d) ==> begins(r, followed(d, goal_ended())),
    {
        match t {
            Turn::Ask(q, c) => {
                proof {
                    lemma_followed(q@, c.waiting(), goal_ended());
                }
                Turn::Ask(q, ToolRun::Goal(c))
            },
            Turn::Done(Ok(o)) => Turn::Done(Ok(ToolOutcome::Goal(o))),
            Turn::Done(Err(e)) => Turn::Done(Err(Trouble::Tool(e))),
        }
    }

    /// Goes on with [`Tool::TermGoal`].
    fn term_goal(t: Turn<TermGoalCall, Result<TermGoalState, LeanToolError>>) -> (r: Turn<
        ToolRun,
        Result<ToolOutcome, Trouble>,
    >)
        ensures
            forall|d: Dialogue<TermGoalSaid>| #[trigger]
                begins(t, d) ==> begins(r, followed(d, term_goal_ended())),
    {
        match t {
            Turn::Ask(q, c) => {
                proof {
                    lemma_followed(q@, c.waiting(), term_goal_ended());
                }
                Turn::Ask(q, ToolRun::TermGoal(c))
            },
            Turn::Done(Ok(o)) => Turn::Done(Ok(ToolOutcome::TermGoal(o))),
            Turn::Done(Err(e)) => Turn::Done(Err(Trouble::Tool(e))),
        }
    }

    /// Goes on with [`Tool::Hover`].
    fn hover(t: Turn<HoverCall, Result<HoverInfo, LeanToolError>>) -> (r: Turn<
        ToolRun,
        Result<ToolOutcome, Trouble>,
    >)
        ensures
            forall|d: Dialogue<HoverSaid>| #[trigger]
                begins(t, d) ==> begins(r, followed(d, hover_ended())),
    {
        match t {
            Turn::Ask(q, c) => {
                proof {
                    lemma_followed(q@, c.waiting(), hover_ended());
                }
                Turn::Ask(q, ToolRun::Hover(c))
            },
            Turn::Done(Ok(o)) => Turn::Done(Ok(ToolOutcome::Hover(o))),
            Turn::Done(Err(e)) => Turn::Done(Err(Trouble::Tool(e))),
        }
    }

    /// Goes on with [`Tool::Completions`].
    fn completions(t: Turn<CompletionsCall, Result<CompletionsResult, LeanToolError>>) -> (r: Turn<
        ToolRun,
        Result<ToolOutcome, Trouble>,
    >)
        ensures
            forall|d: Dialogue<CompletionsSaid>| #[trigger]
                begins(t, d) ==> begins(r, followed(d, completions_ended())),
    {
        match t {
            Turn::Ask(q, c) => {
                proof {
                    lemma_followed(q@, c.waiting(), completions_ended());
                }
                Turn::Ask(q, ToolRun::Completions(c))
            },
            Turn::Done(Ok(o)) => Turn::Done(Ok(ToolOutcome::Completions(o))),
            Turn::Done(Err(e)) => Turn::Done(Err(Trouble::Tool(e))),
        }
    }

    /// Goes on with [`Tool::Diagnostics`].
    fn diagnostics(t: Turn<DiagnosticsCall, Result<Diagnostics, LeanToolError>>) -> (r: Turn<
        ToolRun,
        Result<ToolOutcome, Trouble>,
    >)
        ensures
            forall|d: Dialogue<DiagnosticsSaid>| #[trigger]
                begins(t, d) ==> begins(r, followed(d, diagnostics_ended())),
    {
        match t {
            Turn::Ask(q, c) => {
                proof {
                    lemma_followed(q@, c.waiting(), diagnostics_ended());
                }
                Turn::Ask(q, ToolRun::Diagnostics(c))
            },
            Turn::Done(Ok(o)) => Turn::Done(Ok(ToolOutcome::Diagnostics(o))),
            Turn::Done(Err(e)) => Turn::Done(Err(Trouble::Tool(e))),
        }
    }

    /// Goes on with [`Tool::Outline`].
    fn outline(t: Turn<OutlineCall, Result<FileOutline, LeanToolError>>) -> (r: Turn<
        ToolRun,
        Result<ToolOutcome, Trouble>,
    >)
        ensures
            forall|d: Dialogue<OutlineSaid>| #[trigger]
                begins(t, d) ==> begins(r, followed(d, outline_ended())),
    {
        match t {
            Turn::Ask(q, c) => {
                proof {
                    lemma_followed(q@, c.waiting(), outline_ended());
                }
                Turn::Ask(q, ToolRun::Outline(c))
            },
            Turn::Done(Ok(o)) => Turn::Done(Ok(ToolOutcome::Outline(o))),
            Turn::Done(Err(e)) => Turn::Done(Err(Trouble::Tool(e))),
        }
    }

    /// Goes on with [`Tool::Declaration`].
    fn declaration(t: Turn<DeclarationCall, Result<DeclarationInfo, LeanToolError>>) -> (r: Turn<
        ToolRun,
        Result<ToolOutcome, Trouble>,
    >)
        ensures
            forall|d: Dialogue<DeclarationSaid>| #[trigger]
                begins(t, d) ==> begins(r, followed(d, declaration_ended())),
    {
        match t {
            Turn::Ask(q, c) => {
                proof {
                    lemma_followed(q@, c.waiting(), declaration_ended());
                }
                Turn::Ask(q, ToolRun::Declaration(c))
            },
            Turn::Done(Ok(o)) => Turn::Done(Ok(ToolOutcome::Declaration(o))),
            Turn::Done(Err(e)) => Turn::Done(Err(Trouble::Tool(e))),
        }
    }

    /// Goes on with [`Tool::References`].
    fn references(t: Turn<ReferencesCall, Result<ReferencesResult, LeanToolError>>) -> (r: Turn<
        ToolRun,
        Result<ToolOutcome, Trouble>,
    >)
        ensures
            forall|d: Dialogue<ReferencesSaid>| #[trigger]
                begins(t, d) ==> begins(r, followed(d, references_ended())),
    {
        match t {
            Turn::Ask(q, c) => {
                proof {
                    lemma_followed(q@, c.waiting(), references_ended());
                }
                Turn::Ask(q, ToolRun::References(c))
            },
            Turn::Done(Ok(o)) => Turn::Done(Ok(ToolOutcome::References(o))),
            Turn::Done(Err(e)) => Turn::Done(Err(Trouble::Tool(e))),
        }
    }

    /// Goes on with [`Tool::MultiAttempt`].
    fn multi_attempt(t: Turn<MultiAttempt, Result<Attempts, LeanToolError>>) -> (r: Turn<
        ToolRun,
        Result<ToolOutcome, Trouble>,
    >)
        ensures
            forall|d: Dialogue<ToolSaid>| #[trigger]
                begins(t, d) ==> begins(r, followed(d, multi_attempt_ended())),
    {
        match t {
            Turn::Ask(q, c) => {
                proof {
                    lemma_followed(q@, c.waiting(), multi_attempt_ended());
                }
                Turn::Ask(q, ToolRun::MultiAttempt(c))
            },
            Turn::Done(Ok(o)) => Turn::Done(Ok(ToolOutcome::MultiAttempt(o))),
            Turn::Done(Err(e)) => Turn::Done(Err(Trouble::Tool(e))),
        }
    }

    /// Goes on with [`Tool::RunCode`].
    fn run_code(t: Turn<RunCodeCall, Result<RunResult, LeanToolError>>) -> (r: Turn<
        ToolRun,
        Result<ToolOutcome, Trouble>,
    >)
        ensures
            forall|d: Dialogue<RunSaid>| #[trigger]
                begins(t, d) ==> begins(r, followed(d, run_code_ended())),
    {
        match t {
            Turn::Ask(q, c) => {
                proof {
                    lemma_followed(q@, c.waiting(), run_code_ended());
                }
                Turn::Ask(q, ToolRun::RunCode(c))
            },
            Turn::Done(Ok(o)) => Turn::Done(Ok(ToolOutcome::RunCode(o))),
            Turn::Done(Err(e)) => Turn::Done(Err(Trouble::Tool(e))),
        }
    }

    /// Goes on with [`Tool::Verify`].
    fn verify(t: Turn<VerifyCall, Result<VerifyResult, LeanToolError>>) -> (r: Turn<
        ToolRun,
        Result<ToolOutcome, Trouble>,
    >)
        ensures
            forall|d: Dialogue<VerifySaid>| #[trigger]
                begins(t, d) ==> begins(r, followed(d, verify_ended())),
    {
        match t {
            Turn::Ask(q, c) => {
                proof {
                    lemma_followed(q@, c.waiting(), verify_ended());
                }
                Turn::Ask(q, ToolRun::Verify(c))
            },
            Turn::Done(Ok(o)) => Turn::Done(Ok(ToolOutcome::Verify(o))),
            Turn::Done(Err(e)) => Turn::Done(Err(Trouble::Tool(e))),
        }
    }

    /// Goes on with [`Tool::Build`].
    fn build(t: Turn<BuildCall, Result<BuildResult, LeanToolError>>) -> (r: Turn<
        ToolRun,
        Result<ToolOutcome, Trouble>,
    >)
        ensures
            forall|d: Dialogue<BuildSaid>| #[trigger]
                begins(t, d) ==> begins(r, followed(d, build_ended())),
    {
        match t {
            Turn::Ask(q, c) => {
                proof {
                    lemma_followed(q@, c.waiting(), build_ended());
                }
                Turn::Ask(q, ToolRun::Build(c))
            },
            Turn::Done(Ok(o)) => Turn::Done(Ok(ToolOutcome::Build(o))),
            Turn::Done(Err(e)) => Turn::Done(Err(Trouble::Tool(e))),
        }
    }

    /// Goes on with [`Tool::Profile`].
    fn profile(t: Turn<ProfileCall, Result<ProofTimes, LeanToolError>>) -> (r: Turn<
        ToolRun,
        Result<ToolOutcome, Trouble>,
    >)
        ensures
            forall|d: Dialogue<ProfileSaid>| #[trigger]
                begins(t, d) ==> begins(r, followed(d, profile_ended())),
    {
        match t {
            Turn::Ask(q, c) => {
                proof {
                    lemma_followed(q@, c.waiting(), profile_ended());
                }
                Turn::Ask(q, ToolRun::Profile(c))
            },
            Turn::Done(Ok(o)) => Turn::Done(Ok(ToolOutcome::Profile(o))),
            Turn::Done(Err(e)) => Turn::Done(Err(Trouble::Tool(e))),
        }
    }

    /// Goes on with [`Tool::LeanSearch`].
    fn lean_search(t: Turn<LeanSearchCall, Result<LeanSearchResults, LeanToolError>>) -> (r: Turn<
        ToolRun,
        Result<ToolOutcome, Trouble>,
    >)
        ensures
            forall|d: Dialogue<LeanSearchSaid>| #[trigger]
                begins(t, d) ==> begins(r, followed(d, lean_search_ended())),
    {
        match t {
            Turn::Ask(q, c) => {
                proof {
                    lemma_followed(q@, c.waiting(), lean_search_ended());
                }
                Turn::Ask(q, ToolRun::LeanSearch(c))
            },
            Turn::Done(Ok(o)) => Turn::Done(Ok(ToolOutcome::LeanSearch(o))),
            Turn::Done(Err(e)) => Turn::Done(Err(Trouble::Tool(e))),
        }
    }

    /// Goes on with [`Tool::Loogle`].
    fn loogle(t: Turn<LoogleCall, Result<LoogleResults, LeanToolError>>) -> (r: Turn<
        ToolRun,
        Result<ToolOutcome, Trouble>,
    >)
        ensures
            forall|d: Dialogue<LoogleSaid>| #[trigger]
                begins(t, d) ==> begins(r, followed(d, loogle_ended())),
    {
        match t {
            Turn::Ask(q, c) => {
                proof {
                    lemma_followed(q@, c.waiting(), loogle_ended());
                }
                Turn::Ask(q, ToolRun::Loogle(c))
            },
            Turn::Done(Ok(o)) => Turn::Done(Ok(ToolOutcome::Loogle(o))),
            Turn::Done(Err(e)) => Turn::Done(Err(Trouble::Tool(e))),
        }
    }

    /// Goes on with [`Tool::LeanFinder`].
    fn lean_finder(t: Turn<LeanFinderCall, Result<LeanFinderResults, LeanToolError>>) -> (r: Turn<
        ToolRun,
        Result<ToolOutcome, Trouble>,
    >)
        ensures
            forall|d: Dialogue<FinderSaid>| #[trigger]
                begins(t, d) ==> begins(r, followed(d, lean_finder_ended())),
    {
        match t {
            Turn::Ask(q, c) => {
                proof {
                    lemma_followed(q@, c.waiting(), lean_finder_ended());
                }
                Turn::Ask(q, ToolRun::LeanFinder(c))
            },
            Turn::Done(Ok(o)) => Turn::Done(Ok(ToolOutcome::LeanFinder(o))),
            Turn::Done(Err(e)) => Turn::Done(Err(Trouble::Tool(e))),
        }
    }

    /// Goes on with [`Tool::StateSearch`].
    fn state_search(
        t: Turn<StateSearchCall, Result<StateSearchResults, LeanToolError>>,
    ) -> (r: Turn<
        ToolRun,
        Result<ToolOutcome, Trouble>,
    >)
        ensures
            forall|d: Dialogue<StateSaid>| #[trigger]
                begins(t, d) ==> begins(r, followed(d, state_search_ended())),
    {
        match t {
            Turn::Ask(q, c) => {
                proof {
                    lemma_followed(q@, c.waiting(), state_search_ended());
                }
                Turn::Ask(q, ToolRun::StateSearch(c))
            },
            Turn::Done(Ok(o)) => Turn::Done(Ok(ToolOutcome::StateSearch(o))),
            Turn::Done(Err(e)) => Turn::Done(Err(Trouble::Tool(e))),
        }
    }

    /// Goes on with [`Tool::Premises`].
    fn premises(t: Turn<PremiseCall, Result<PremiseResults, LeanToolError>>) -> (r: Turn<
        ToolRun,
        Result<ToolOutcome, Trouble>,
    >)
        ensures
            forall|d: Dialogue<PremiseSaid>| #[trigger]
                begins(t, d) ==> begins(r, followed(d, premises_ended())),
    {
        match t {
            Turn::Ask(q, c) => {
                proof {
                    lemma_followed(q@, c.waiting(), premises_ended());
                }
                Turn::Ask(q, ToolRun::Premises(c))
            },
            Turn::Done(Ok(o)) => Turn::Done(Ok(ToolOutcome::Premises(o))),
            Turn::Done(Err(e)) => Turn::Done(Err(Trouble::Tool(e))),
        }
    }

    /// Goes on with [`Tool::CodeActions`].
    fn code_actions(t: Turn<CodeActionsCall, Result<CodeActionsResult, LeanToolError>>) -> (r: Turn<
        ToolRun,
        Result<ToolOutcome, Trouble>,
    >)
        ensures
            forall|d: Dialogue<ActionsSaid>| #[trigger]
                begins(t, d) ==> begins(r, followed(d, code_actions_ended())),
    {
        match t {
            Turn::Ask(q, c) => {
                proof {
                    lemma_followed(q@, c.waiting(), code_actions_ended());
                }
                Turn::Ask(q, ToolRun::CodeActions(c))
            },
            Turn::Done(Ok(o)) => Turn::Done(Ok(ToolOutcome::CodeActions(o))),
            Turn::Done(Err(e)) => Turn::Done(Err(Trouble::Tool(e))),
        }
    }

    /// Goes on with [`Tool::Widgets`].
    fn widgets(t: Turn<WidgetsCall, Result<WidgetsResult, LeanToolError>>) -> (r: Turn<
        ToolRun,
        Result<ToolOutcome, Trouble>,
    >)
        ensures
            forall|d: Dialogue<WidgetsSaid>| #[trigger]
                begins(t, d) ==> begins(r, followed(d, widgets_ended())),
    {
        match t {
            Turn::Ask(q, c) => {
                proof {
                    lemma_followed(q@, c.waiting(), widgets_ended());
                }
                Turn::Ask(q, ToolRun::Widgets(c))
            },
            Turn::Done(Ok(o)) => Turn::Done(Ok(ToolOutcome::Widgets(o))),
            Turn::Done(Err(e)) => Turn::Done(Err(Trouble::Tool(e))),
        }
    }

    /// Goes on with [`Tool::WidgetSource`].
    fn widget_source(
        t: Turn<WidgetSourceCall, Result<WidgetSourceResult, LeanToolError>>,
    ) -> (r: Turn<
        ToolRun,
        Result<ToolOutcome, Trouble>,
    >)
        ensures
            forall|d: Dialogue<WidgetSourceSaid>| #[trigger]
                begins(t, d) ==> begins(r, followed(d, widget_source_ended())),
    {
        match t {
            Turn::Ask(q, c) => {
                proof {
                    lemma_followed(q@, c.waiting(), widget_source_ended());
                }
                Turn::Ask(q, ToolRun::WidgetSource(c))
            },
            Turn::Done(Ok(o)) => Turn::Done(Ok(ToolOutcome::WidgetSource(o))),
            Turn::Done(Err(e)) => Turn::Done(Err(Trouble::Tool(e))),
        }
    }

    /// Goes on with [`Tool::ProofDiff`].
    fn proof_diff(t: Turn<ProofDiffCall, Result<GoalDiffResult, LeanToolError>>) -> (r: Turn<
        ToolRun,
        Result<ToolOutcome, Trouble>,
    >)
        ensures
            forall|d: Dialogue<DiffSaid>| #[trigger]
                begins(t, d) ==> begins(r, followed(d, proof_diff_ended())),
    {
        match t {
            Turn::Ask(q, c) => {
                proof {
                    lemma_followed(q@, c.waiting(), proof_diff_ended());
                }
                Turn::Ask(q, ToolRun::ProofDiff(c))
            },
            Turn::Done(Ok(o)) => Turn::Done(Ok(ToolOutcome::ProofDiff(o))),
            Turn::Done(Err(e)) => Turn::Done(Err(Trouble::Tool(e))),
        }
    }

    /// Goes on with [`Tool::GoalsBatch`].
    fn goals_batch(
        t: Turn<FilesCall, Vec<Result<String, String>>>,
        positions: Vec<BatchGoalPosition>,
    ) -> (r: Turn<ToolRun, Result<ToolOutcome, Trouble>>)
        ensures
            forall|d: Dialogue<FilesSaid>| #[trigger]
                begins(t, d) ==> begins(r, followed(d, goals_batch_ended(all_views(positions@)))),
    {
        match t {
            Turn::Ask(q, call) => {
                proof {
                    lemma_followed(
                        q@,
                        call.waiting(),
                        goals_batch_ended(all_views(positions@)),
                    );
                }
                Turn::Ask(q, ToolRun::GoalsBatch { call, positions })
            },
            Turn::Done(contents) => Turn::Done(
                Ok(ToolOutcome::GoalsBatch { positions, contents }),
            ),
        }
    }

    /// Goes on with [`Tool::ProjectHealth`].
    fn project_health(t: Turn<HealthCall, Result<ProjectHealthResult, String>>) -> (r: Turn<
        ToolRun,
        Result<ToolOutcome, Trouble>,
    >)
        ensures
            forall|d: Dialogue<HealthSaid>| #[trigger]
                begins(t, d) ==> begins(r, followed(d, project_health_ended())),
    {
        match t {
            Turn::Ask(q, c) => {
                proof {
                    lemma_followed(q@, c.waiting(), project_health_ended());
                }
                Turn::Ask(q, ToolRun::ProjectHealth(c))
            },
            Turn::Done(Ok(o)) => Turn::Done(Ok(ToolOutcome::ProjectHealth(o))),
            Turn::Done(Err(m)) => Turn::Done(Err(Trouble::Words(m))),
        }
    }
}

impl Call for ToolRun {
    fn accepts(&self, reply: &Reply) -> (r: bool) {
        match self {
            ToolRun::Goal(c) => c.accepts(reply),
            ToolRun::TermGoal(c) => c.accepts(reply),
            ToolRun::Hover(c) => c.accepts(reply),
            ToolRun::Completions(c) => c.accepts(reply),
            ToolRun::Diagnostics(c) => c.accepts(reply),
            ToolRun::Outline(c) => c.accepts(reply),
            ToolRun::Declaration(c) => c.accepts(reply),
            ToolRun::References(c) => c.accepts(reply),
            ToolRun::MultiAttempt(c) => c.accepts(reply),
            ToolRun::RunCode(c) => c.accepts(reply),
            ToolRun::Verify(c) => c.accepts(reply),
            ToolRun::Build(c) => c.accepts(reply),
            ToolRun::Profile(c) => c.accepts(reply),
            ToolRun::LeanSearch(c) => c.accepts(reply),
            ToolRun::Loogle(c) => c.accepts(reply),
            ToolRun::LeanFinder(c) => c.accepts(reply),
            ToolRun::StateSearch(c) => c.accepts(reply),
            ToolRun::Premises(c) => c.accepts(reply),
            ToolRun::CodeActions(c) => c.accepts(reply),
            ToolRun::Widgets(c) => c.accepts(reply),
            ToolRun::WidgetSource(c) => c.accepts(reply),
            ToolRun::ProofDiff(c) => c.accepts(reply),
            ToolRun::GoalsBatch { call, positions } => call.accepts(reply),
            ToolRun::LocalSearch => true,
            ToolRun::ProjectHealth(c) => c.accepts(reply),
        }
    }

    fn resume(self, reply: Reply) -> (t: Turn<Self, Self::Out>) {
        match self {
            ToolRun::Goal(c) => ToolRun::goal(c.resume(reply)),
            ToolRun::TermGoal(c) => ToolRun::term_goal(c.resume(reply)),
            ToolRun::Hover(c) => ToolRun::hover(c.resume(reply)),
            ToolRun::Completions(c) => ToolRun::completions(c.resume(reply)),
            ToolRun::Diagnostics(c) => ToolRun::diagnostics(c.resume(reply)),
            ToolRun::Outline(c) => ToolRun::outline(c.resume(reply)),
            ToolRun::Declaration(c) => ToolRun::declaration(c.resume(reply)),
            ToolRun::References(c) => ToolRun::references(c.resume(reply)),
            ToolRun::MultiAttempt(c) => ToolRun::multi_attempt(c.resume(reply)),
            ToolRun::RunCode(c) => ToolRun::run_code(c.resume(reply)),
            ToolRun::Verify(c) => ToolRun::verify(c.resume(reply)),
            ToolRun::Build(c) => ToolRun::build(c.resume(reply)),
            ToolRun::Profile(c) => ToolRun::profile(c.resume(reply)),
            ToolRun::LeanSearch(c) => ToolRun::lean_search(c.resume(reply)),
            ToolRun::Loogle(c) => ToolRun::loogle(c.resume(reply)),
            ToolRun::LeanFinder(c) => ToolRun::lean_finder(c.resume(reply)),
            ToolRun::StateSearch(c) => ToolRun::state_search(c.resume(reply)),
            ToolRun::Premises(c) => ToolRun::premises(c.resume(reply)),
            ToolRun::CodeActions(c) => ToolRun::code_actions(c.resume(reply)),
            ToolRun::Widgets(c) => ToolRun::widgets(c.resume(reply)),
            ToolRun::WidgetSource(c) => ToolRun::widget_source(c.resume(reply)),
            ToolRun::ProofDiff(c) => ToolRun::proof_diff(c.resume(reply)),
            ToolRun::GoalsBatch { call, positions } => ToolRun::goals_batch(
                call.resume(reply),
                positions,
            ),
            ToolRun::LocalSearch => match reply.value() {
                Ok(v) => Turn::Done(Ok(ToolOutcome::LocalSearch(v))),
                Err(m) => Turn::Done(Err(Trouble::Words(m))),
            },
            ToolRun::ProjectHealth(c) => ToolRun::project_health(c.resume(reply)),
        }
    }
}

/// Begins to profile a proof.
fn profile_turn_of(p: ProfileProofParams, process: u32) -> (t: Turn<
    ProfileCall,
    Result<ProofTimes, LeanToolError>,
>)
    ensures
        begins(
            t,
            profile_dialogue(
                p.file_path@,
                p.line,
                temp_file(process),
                text_or(opt_text(p.timeout), "30"@),
            ),
        ),
{
    match p.timeout {
        Some(seconds) => handle_profile_proof(
            p.file_path.as_str(),
            p.line,
            process,
            seconds.as_str(),
        ),
        None => handle_profile_proof(p.file_path.as_str(), p.line, process, "30"),
    }
}

/// Begins the call of a tool.
pub fn run_tool(call: ToolCall, settings: &Settings) -> (t: Turn<
    ToolRun,
    Result<ToolOutcome, Trouble>,
>)
    ensures
        begins(t, tool_dialogue(call, settings@)),
{
    match call {
        ToolCall::Goal(p) => ToolRun::goal(
            handle_lean_goal(p.file_path.as_str(), p.line, p.column),
        ),
        ToolCall::TermGoal(p) => ToolRun::term_goal(
            handle_lean_term_goal(p.file_path.as_str(), p.line, p.column),
        ),
        ToolCall::Hover(p) => ToolRun::hover(
            handle_lean_hover(p.file_path.as_str(), p.line, p.column),
        ),
        ToolCall::Completions(p) => ToolRun::completions(
            handle_lean_completions(
                p.file_path.as_str(),
                p.line,
                p.column,
                or_number(p.max_completions, 32),
            ),
        ),
        ToolCall::Diagnostics(p) => ToolRun::diagnostics(
            handle_diagnostics(
                p.file_path.as_str(),
                p.start_line,
                p.end_line,
                p.declaration_name,
                or_flag(p.interactive, false),
                p.severity,
            ),
        ),
        ToolCall::Outline(p) => ToolRun::outline(
            handle_file_outline(p.file_path.as_str(), p.max_declarations),
        ),
        ToolCall::Declaration(p) => ToolRun::declaration(
            handle_declaration_file(p.file_path.as_str(), p.symbol.as_str()),
        ),
        ToolCall::References(p) => ToolRun::references(
            handle_references(p.file_path.as_str(), p.line, p.column),
        ),
        ToolCall::MultiAttempt(p) => ToolRun::multi_attempt(
            handle_multi_attempt(
                false,
                p.file_path.as_str(),
                p.line,
                p.snippets,
                p.column,
                p.parallel,
            ),
        ),
        ToolCall::RunCode(p) => ToolRun::run_code(
            run_code_as(settings.id.as_str(), p.code.as_str(), None, copied(&settings.heartbeats)),
        ),
        ToolCall::Verify(p) => ToolRun::verify(
            handle_verify(
                p.file_path.as_str(),
                p.theorem_name.as_str(),
                or_flag(p.scan_source, true),
            ),
        ),
        ToolCall::Build(p) => ToolRun::build(
            handle_build(or_flag(p.clean, false), or_number(p.output_lines, 20)),
        ),
        ToolCall::Profile(p) => ToolRun::profile(
            profile_turn_of(p, settings.process),
        ),
        ToolCall::LeanSearch(p) => ToolRun::lean_search(
            handle_leansearch(p.query.as_str(), or_number(p.num_results, 5), &settings.config),
        ),
        ToolCall::Loogle(p) => ToolRun::loogle(
            handle_loogle_remote(p.query.as_str(), or_number(p.num_results, 8), &settings.config),
        ),
        ToolCall::LeanFinder(p) => ToolRun::lean_finder(
            handle_leanfinder(p.query.as_str(), or_number(p.num_results, 5), &settings.config),
        ),
        ToolCall::StateSearch(p) => ToolRun::state_search(
            handle_state_search(
                p.file_path.as_str(),
                p.line,
                p.column,
                or_number(p.num_results, 5),
                &settings.config,
            ),
        ),
        ToolCall::Premises(p) => ToolRun::premises(
            handle_hammer_premise(
                p.file_path.as_str(),
                p.line,
                p.column,
                or_number(p.num_results, 32),
                &settings.config,
            ),
        ),
        ToolCall::CodeActions(p) => ToolRun::code_actions(
            handle_code_actions(p.file_path.as_str(), p.line),
        ),
        ToolCall::Widgets(p) => ToolRun::widgets(
            handle_get_widgets(p.file_path.as_str(), p.line, p.column),
        ),
        ToolCall::WidgetSource(p) => ToolRun::widget_source(
            handle_get_widget_source(p.file_path.as_str(), p.javascript_hash.as_str()),
        ),
        ToolCall::ProofDiff(p) => ToolRun::proof_diff(
            handle_lean_proof_diff(
                p.file_path.as_str(),
                p.before_line,
                p.before_column,
                p.after_line,
                p.after_column,
            ),
        ),
        ToolCall::GoalsBatch(p) => ToolRun::goals_batch(
            handle_lean_goals_batch(&p.positions),
            p.positions,
        ),
        ToolCall::LocalSearch(p) => Turn::Ask(
            Request::LocalSearch {
                query: p.query,
                limit: or_number(p.limit, 10),
                root: p.project_root,
            },
            ToolRun::LocalSearch,
        ),
        ToolCall::ProjectHealth(p) => {
            let include_goals = or_flag(p.include_goals, false);
            ToolRun::project_health(handle_project_health(include_goals, include_goals))
        },
    }
}

// ---------------------------------------------------------------------------
// Answers
// ---------------------------------------------------------------------------

/// What a call comes to, or what the user is told went wrong.
pub type AnswerSaid = Result<OutcomeView, Seq<char>>;

/// After an error was put into words.
pub open spec fn error_told() -> Waiting<AnswerSaid> {
    |r: ReplyView|
        Dialogue::Finish(
            Err(
                match r {
                    ReplyView::Text(words) => words,
                    _ => r.trouble(),
                },
            ),
        )
}

/// Puts what went wrong with a tool into words.
pub open spec fn tool_ran() -> spec_fn(RanSaid) -> Dialogue<AnswerSaid> {
    |s: RanSaid|
        match s {
            Ok(v) => Dialogue::Finish(Ok(v)),
            Err(TroubleView::Tool(error)) => Dialogue::Ask(
                RequestView::ErrorText { error },
                error_told(),
            ),
            Err(TroubleView::Words(words)) => Dialogue::Finish(Err(words)),
        }
}

/// The whole of a call, with what went wrong in words.
pub open spec fn answer_dialogue(call: ToolCall, s: SettingsView) -> Dialogue<AnswerSaid> {
    followed(tool_dialogue(call, s), tool_ran())
}

/// A call at work, which ends with words where something goes wrong.
pub enum AnswerCall {
    /// The tool is at work.
    Running(ToolRun),
    /// Waits for the words.
    Telling,
}

/// What an answer says.
pub open spec fn answer_said(o: Result<ToolOutcome, String>) -> AnswerSaid {
    match o {
        Ok(v) => Ok(v@),
        Err(m) => Err(m@),
    }
}

impl Waits for AnswerCall {
    type Out = Result<ToolOutcome, String>;

    type Said = AnswerSaid;

    open spec fn said(o: Self::Out) -> AnswerSaid {
        answer_said(o)
    }

    open spec fn valid(self) -> bool {
        match self {
            AnswerCall::Running(c) => c.valid(),
            AnswerCall::Telling => true,
        }
    }

    open spec fn waiting(self) -> Waiting<AnswerSaid> {
        match self {
            AnswerCall::Running(c) => waiting_first(c.waiting(), tool_ran()),
            AnswerCall::Telling => error_told(),
        }
    }

    open spec fn admits(self, r: ReplyView) -> bool {
        match self {
            AnswerCall::Running(c) => c.admits(r),
            AnswerCall::Telling => true,
        }
    }
}

impl AnswerCall {
    /// Goes on with the tool.
    fn ran(t: Turn<ToolRun, Result<ToolOutcome, Trouble>>) -> (r: Turn<
        AnswerCall,
        Result<ToolOutcome, String>,
    >)
        ensures
            forall|d: Dialogue<RanSaid>| #[trigger]
                begins(t, d) ==> begins(r, followed(d, tool_ran())),
    {
        match t {
            Turn::Ask(q, c) => {
                proof {
                    lemma_followed(q@, c.waiting(), tool_ran());
                }
                Turn::Ask(q, AnswerCall::Running(c))
            },
            Turn::Done(Ok(o)) => Turn::Done(Ok(o)),
            Turn::Done(Err(Trouble::Tool(error))) => Turn::Ask(
                Request::ErrorText { error },
                AnswerCall::Telling,
            ),
            Turn::Done(Err(Trouble::Words(words))) => Turn::Done(Err(words)),
        }
    }
}

impl Call for AnswerCall {
    fn accepts(&self, reply: &Reply) -> (r: bool) {
        match self {
            AnswerCall::Running(c) => c.accepts(reply),
            AnswerCall::Telling => true,
        }
    }

    fn resume(self, reply: Reply) -> (t: Turn<Self, Self::Out>) {
        match self {
            AnswerCall::Running(c) => AnswerCall::ran(c.resume(reply)),
            AnswerCall::Telling => match reply.text() {
                Ok(words) => Turn::Done(Err(words)),
                Err(m) => Turn::Done(Err(m)),
            },
        }
    }
}

/// Begins a call that ends with words where something goes wrong.
pub fn answer(call: ToolCall, settings: &Settings) -> (t: Turn<
    AnswerCall,
    Result<ToolOutcome, String>,
>)
    ensures
        begins(t, answer_dialogue(call, settings@)),
{
    AnswerCall::ran(run_tool(call, settings))
}

/// The settings for another call differ from those before in the call's own name alone.
pub proof fn lemma_settings_kept(s: SettingsView, id: Seq<char>)
    ensures
        settings_for(s, id).id == id,
        settings_for(s, id).config == s.config,
        settings_for(s, id).heartbeats == s.heartbeats,
        settings_for(s, id).process == s.process,
{
}

} // verus!
