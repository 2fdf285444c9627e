//! What the tools take and give.
use crate::json::{views, Json, JsonView};
use crate::text::texts;
use vstd::prelude::*;

verus! {

/// What some values say, each taken by its view.
pub open spec fn all_views<T: View>(s: Seq<T>) -> Seq<T::V> {
    s.map_values(|x: T| x@)
}

/// What an optional value says, taken by its view.
pub open spec fn opt_of<T: View>(o: Option<T>) -> Option<T::V> {
    match o {
        Some(x) => Some(x@),
        None => None,
    }
}

/// The text of an optional string.
pub open spec fn opt_text(o: Option<String>) -> Option<Seq<char>> {
    match o {
        Some(s) => Some(s@),
        None => None,
    }
}

/// The text of an optional string slice.
pub open spec fn opt_str(o: Option<&str>) -> Option<Seq<char>> {
    match o {
        Some(s) => Some(s@),
        None => None,
    }
}

/// The texts of an optional list of strings.
pub open spec fn opt_texts(o: Option<Vec<String>>) -> Option<Seq<Seq<char>>> {
    match o {
        Some(v) => Some(texts(v@)),
        None => None,
    }
}

/// One compiler diagnostic, at a position from 1.
#[derive(Debug, PartialEq, Eq)]
pub struct DiagnosticMessage {
    pub severity: String,
    pub message: String,
    pub line: i64,
    pub column: i64,
}

/// What a [`DiagnosticMessage`] says.
pub struct DiagnosticMessageView {
    pub severity: Seq<char>,
    pub message: Seq<char>,
    pub line: i64,
    pub column: i64,
}

impl View for DiagnosticMessage {
    type V = DiagnosticMessageView;

    open spec fn view(&self) -> DiagnosticMessageView {
        DiagnosticMessageView {
            severity: self.severity@,
            message: self.message@,
            line: self.line,
            column: self.column,
        }
    }
}

/// The diagnostics of a file.
#[derive(Debug, PartialEq, Eq)]
pub struct DiagnosticsResult {
    pub success: bool,
    pub items: Vec<DiagnosticMessage>,
    pub failed_dependencies: Vec<String>,
}

/// What a [`DiagnosticsResult`] says.
pub struct DiagnosticsResultView {
    pub success: bool,
    pub items: Seq<DiagnosticMessageView>,
    pub failed_dependencies: Seq<Seq<char>>,
}

impl View for DiagnosticsResult {
    type V = DiagnosticsResultView;

    open spec fn view(&self) -> DiagnosticsResultView {
        DiagnosticsResultView {
            success: self.success,
            items: all_views(self.items@),
            failed_dependencies: texts(self.failed_dependencies@),
        }
    }
}

/// The diagnostics of a file with their embedded widgets.
#[derive(Debug, PartialEq, Eq)]
pub struct InteractiveDiagnosticsResult {
    pub diagnostics: Vec<Json>,
}

/// What a [`InteractiveDiagnosticsResult`] says.
pub struct InteractiveDiagnosticsResultView {
    pub diagnostics: Seq<JsonView>,
}

impl View for InteractiveDiagnosticsResult {
    type V = InteractiveDiagnosticsResultView;

    open spec fn view(&self) -> InteractiveDiagnosticsResultView {
        InteractiveDiagnosticsResultView {
            diagnostics: views(self.diagnostics@),
        }
    }
}

/// The goals on a line.
#[derive(Debug, PartialEq, Eq)]
pub struct GoalState {
    pub line_context: String,
    pub goals: Option<Vec<String>>,
    pub goals_before: Option<Vec<String>>,
    pub goals_after: Option<Vec<String>>,
}

/// What a [`GoalState`] says.
pub struct GoalStateView {
    pub line_context: Seq<char>,
    pub goals: Option<Seq<Seq<char>>>,
    pub goals_before: Option<Seq<Seq<char>>>,
    pub goals_after: Option<Seq<Seq<char>>>,
}

impl View for GoalState {
    type V = GoalStateView;

    open spec fn view(&self) -> GoalStateView {
        GoalStateView {
            line_context: self.line_context@,
            goals: opt_texts(self.goals),
            goals_before: opt_texts(self.goals_before),
            goals_after: opt_texts(self.goals_after),
        }
    }
}

/// The expected type at a position.
#[derive(Debug, PartialEq, Eq)]
pub struct TermGoalState {
    pub line_context: String,
    pub expected_type: Option<String>,
}

/// What a [`TermGoalState`] says.
pub struct TermGoalStateView {
    pub line_context: Seq<char>,
    pub expected_type: Option<Seq<char>>,
}

impl View for TermGoalState {
    type V = TermGoalStateView;

    open spec fn view(&self) -> TermGoalStateView {
        TermGoalStateView {
            line_context: self.line_context@,
            expected_type: opt_text(self.expected_type),
        }
    }
}

/// What is known of a symbol.
#[derive(Debug, PartialEq, Eq)]
pub struct HoverInfo {
    pub symbol: String,
    pub info: String,
    pub diagnostics: Vec<DiagnosticMessage>,
}

/// What a [`HoverInfo`] says.
pub struct HoverInfoView {
    pub symbol: Seq<char>,
    pub info: Seq<char>,
    pub diagnostics: Seq<DiagnosticMessageView>,
}

impl View for HoverInfo {
    type V = HoverInfoView;

    open spec fn view(&self) -> HoverInfoView {
        HoverInfoView {
            symbol: self.symbol@,
            info: self.info@,
            diagnostics: all_views(self.diagnostics@),
        }
    }
}

/// One completion.
#[derive(Debug, PartialEq, Eq)]
pub struct CompletionItem {
    pub label: String,
    pub kind: Option<String>,
    pub detail: Option<String>,
}

/// What a [`CompletionItem`] says.
pub struct CompletionItemView {
    pub label: Seq<char>,
    pub kind: Option<Seq<char>>,
    pub detail: Option<Seq<char>>,
}

impl View for CompletionItem {
    type V = CompletionItemView;

    open spec fn view(&self) -> CompletionItemView {
        CompletionItemView {
            label: self.label@,
            kind: opt_text(self.kind),
            detail: opt_text(self.detail),
        }
    }
}

/// The completions at a position.
#[derive(Debug, PartialEq, Eq)]
pub struct CompletionsResult {
    pub items: Vec<CompletionItem>,
}

/// What a [`CompletionsResult`] says.
pub struct CompletionsResultView {
    pub items: Seq<CompletionItemView>,
}

impl View for CompletionsResult {
    type V = CompletionsResultView;

    open spec fn view(&self) -> CompletionsResultView {
        CompletionsResultView {
            items: all_views(self.items@),
        }
    }
}

/// The file in which a symbol is declared.
#[derive(Debug, PartialEq, Eq)]
pub struct DeclarationInfo {
    pub file_path: String,
    pub content: String,
}

/// What a [`DeclarationInfo`] says.
pub struct DeclarationInfoView {
    pub file_path: Seq<char>,
    pub content: Seq<char>,
}

impl View for DeclarationInfo {
    type V = DeclarationInfoView;

    open spec fn view(&self) -> DeclarationInfoView {
        DeclarationInfoView {
            file_path: self.file_path@,
            content: self.content@,
        }
    }
}

/// A range in a file, from 1.
#[derive(Debug, PartialEq, Eq)]
pub struct ReferenceLocation {
    pub file_path: String,
    pub line: i64,
    pub column: i64,
    pub end_line: i64,
    pub end_column: i64,
}

/// What a [`ReferenceLocation`] says.
pub struct ReferenceLocationView {
    pub file_path: Seq<char>,
    pub line: i64,
    pub column: i64,
    pub end_line: i64,
    pub end_column: i64,
}

impl View for ReferenceLocation {
    type V = ReferenceLocationView;

    open spec fn view(&self) -> ReferenceLocationView {
        ReferenceLocationView {
            file_path: self.file_path@,
            line: self.line,
            column: self.column,
            end_line: self.end_line,
            end_column: self.end_column,
        }
    }
}

/// The places where a symbol is used.
#[derive(Debug, PartialEq, Eq)]
pub struct ReferencesResult {
    pub items: Vec<ReferenceLocation>,
}

/// What a [`ReferencesResult`] says.
pub struct ReferencesResultView {
    pub items: Seq<ReferenceLocationView>,
}

impl View for ReferencesResult {
    type V = ReferencesResultView;

    open spec fn view(&self) -> ReferencesResultView {
        ReferencesResultView {
            items: all_views(self.items@),
        }
    }
}

/// What came of one tactic.
#[derive(Debug, PartialEq, Eq)]
pub struct AttemptResult {
    pub snippet: String,
    pub goals: Vec<String>,
    pub diagnostics: Vec<DiagnosticMessage>,
    pub timed_out: bool,
}

/// What a [`AttemptResult`] says.
pub struct AttemptResultView {
    pub snippet: Seq<char>,
    pub goals: Seq<Seq<char>>,
    pub diagnostics: Seq<DiagnosticMessageView>,
    pub timed_out: bool,
}

impl View for AttemptResult {
    type V = AttemptResultView;

    open spec fn view(&self) -> AttemptResultView {
        AttemptResultView {
            snippet: self.snippet@,
            goals: texts(self.goals@),
            diagnostics: all_views(self.diagnostics@),
            timed_out: self.timed_out,
        }
    }
}

/// What came of several tactics.
#[derive(Debug, PartialEq, Eq)]
pub struct MultiAttemptResult {
    pub items: Vec<AttemptResult>,
}

/// What a [`MultiAttemptResult`] says.
pub struct MultiAttemptResultView {
    pub items: Seq<AttemptResultView>,
}

impl View for MultiAttemptResult {
    type V = MultiAttemptResultView;

    open spec fn view(&self) -> MultiAttemptResultView {
        MultiAttemptResultView {
            items: all_views(self.items@),
        }
    }
}

/// What came of running some code.
#[derive(Debug, PartialEq, Eq)]
pub struct RunResult {
    pub success: bool,
    pub diagnostics: Vec<DiagnosticMessage>,
}

/// What a [`RunResult`] says.
pub struct RunResultView {
    pub success: bool,
    pub diagnostics: Seq<DiagnosticMessageView>,
}

impl View for RunResult {
    type V = RunResultView;

    open spec fn view(&self) -> RunResultView {
        RunResultView {
            success: self.success,
            diagnostics: all_views(self.diagnostics@),
        }
    }
}

/// A suspicious piece of source, on a line from 1.
#[derive(Debug, PartialEq, Eq)]
pub struct SourceWarning {
    pub line: i64,
    pub pattern: String,
}

/// What a [`SourceWarning`] says.
pub struct SourceWarningView {
    pub line: i64,
    pub pattern: Seq<char>,
}

impl View for SourceWarning {
    type V = SourceWarningView;

    open spec fn view(&self) -> SourceWarningView {
        SourceWarningView {
            line: self.line,
            pattern: self.pattern@,
        }
    }
}

/// The axioms of a theorem.
#[derive(Debug, PartialEq, Eq)]
pub struct VerifyResult {
    pub axioms: Vec<String>,
    pub warnings: Vec<SourceWarning>,
}

/// What a [`VerifyResult`] says.
pub struct VerifyResultView {
    pub axioms: Seq<Seq<char>>,
    pub warnings: Seq<SourceWarningView>,
}

impl View for VerifyResult {
    type V = VerifyResultView;

    open spec fn view(&self) -> VerifyResultView {
        VerifyResultView {
            axioms: texts(self.axioms@),
            warnings: all_views(self.warnings@),
        }
    }
}

/// One edit of a code action, at positions from 1.
#[derive(Debug, PartialEq, Eq)]
pub struct CodeActionEdit {
    pub new_text: String,
    pub start_line: i64,
    pub start_column: i64,
    pub end_line: i64,
    pub end_column: i64,
}

/// What a [`CodeActionEdit`] says.
pub struct CodeActionEditView {
    pub new_text: Seq<char>,
    pub start_line: i64,
    pub start_column: i64,
    pub end_line: i64,
    pub end_column: i64,
}

impl View for CodeActionEdit {
    type V = CodeActionEditView;

    open spec fn view(&self) -> CodeActionEditView {
        CodeActionEditView {
            new_text: self.new_text@,
            start_line: self.start_line,
            start_column: self.start_column,
            end_line: self.end_line,
            end_column: self.end_column,
        }
    }
}

/// One code action.
#[derive(Debug, PartialEq, Eq)]
pub struct CodeAction {
    pub title: String,
    pub is_preferred: bool,
    pub edits: Vec<CodeActionEdit>,
}

/// What a [`CodeAction`] says.
pub struct CodeActionView {
    pub title: Seq<char>,
    pub is_preferred: bool,
    pub edits: Seq<CodeActionEditView>,
}

impl View for CodeAction {
    type V = CodeActionView;

    open spec fn view(&self) -> CodeActionView {
        CodeActionView {
            title: self.title@,
            is_preferred: self.is_preferred,
            edits: all_views(self.edits@),
        }
    }
}

/// The code actions for a line.
#[derive(Debug, PartialEq, Eq)]
pub struct CodeActionsResult {
    pub actions: Vec<CodeAction>,
}

/// What a [`CodeActionsResult`] says.
pub struct CodeActionsResultView {
    pub actions: Seq<CodeActionView>,
}

impl View for CodeActionsResult {
    type V = CodeActionsResultView;

    open spec fn view(&self) -> CodeActionsResultView {
        CodeActionsResultView {
            actions: all_views(self.actions@),
        }
    }
}

/// One `sorry` in the project, on a line from 1.
#[derive(Debug, PartialEq, Eq)]
pub struct SorryLocation {
    pub file: String,
    pub line: u32,
    pub text: String,
    pub decl: Option<String>,
    pub goal: Option<String>,
}

/// What a [`SorryLocation`] says.
pub struct SorryLocationView {
    pub file: Seq<char>,
    pub line: u32,
    pub text: Seq<char>,
    pub decl: Option<Seq<char>>,
    pub goal: Option<Seq<char>>,
}

impl View for SorryLocation {
    type V = SorryLocationView;

    open spec fn view(&self) -> SorryLocationView {
        SorryLocationView {
            file: self.file@,
            line: self.line,
            text: self.text@,
            decl: opt_text(self.decl),
            goal: opt_text(self.goal),
        }
    }
}

/// What a scan of the project found.
#[derive(Debug, PartialEq, Eq)]
pub struct ProjectHealthResult {
    pub file_count: u32,
    pub sorries: Vec<SorryLocation>,
    pub errors: Vec<String>,
    pub success: bool,
}

/// What a [`ProjectHealthResult`] says.
pub struct ProjectHealthResultView {
    pub file_count: u32,
    pub sorries: Seq<SorryLocationView>,
    pub errors: Seq<Seq<char>>,
    pub success: bool,
}

impl View for ProjectHealthResult {
    type V = ProjectHealthResultView;

    open spec fn view(&self) -> ProjectHealthResultView {
        ProjectHealthResultView {
            file_count: self.file_count,
            sorries: all_views(self.sorries@),
            errors: texts(self.errors@),
            success: self.success,
        }
    }
}

/// What changed between two proof states.
#[derive(Debug, PartialEq, Eq)]
pub struct GoalDiffResult {
    pub goals_added: Vec<String>,
    pub goals_removed: Vec<String>,
    pub hypotheses_added: Vec<String>,
    pub hypotheses_removed: Vec<String>,
    pub changed: bool,
}

/// What a [`GoalDiffResult`] says.
pub struct GoalDiffResultView {
    pub goals_added: Seq<Seq<char>>,
    pub goals_removed: Seq<Seq<char>>,
    pub hypotheses_added: Seq<Seq<char>>,
    pub hypotheses_removed: Seq<Seq<char>>,
    pub changed: bool,
}

impl View for GoalDiffResult {
    type V = GoalDiffResultView;

    open spec fn view(&self) -> GoalDiffResultView {
        GoalDiffResultView {
            goals_added: texts(self.goals_added@),
            goals_removed: texts(self.goals_removed@),
            hypotheses_added: texts(self.hypotheses_added@),
            hypotheses_removed: texts(self.hypotheses_removed@),
            changed: self.changed,
        }
    }
}

/// What came of a build.
#[derive(Debug, PartialEq, Eq)]
pub struct BuildResult {
    pub success: bool,
    pub output: String,
    pub errors: Vec<String>,
}

/// What a [`BuildResult`] says.
pub struct BuildResultView {
    pub success: bool,
    pub output: Seq<char>,
    pub errors: Seq<Seq<char>>,
}

impl View for BuildResult {
    type V = BuildResultView;

    open spec fn view(&self) -> BuildResultView {
        BuildResultView {
            success: self.success,
            output: self.output@,
            errors: texts(self.errors@),
        }
    }
}

/// One hit of LeanSearch.
#[derive(Debug, PartialEq, Eq)]
pub struct LeanSearchResult {
    pub name: String,
    pub module_name: String,
    pub kind: Option<String>,
    pub type_: Option<String>,
}

/// What a [`LeanSearchResult`] says.
pub struct LeanSearchResultView {
    pub name: Seq<char>,
    pub module_name: Seq<char>,
    pub kind: Option<Seq<char>>,
    pub type_: Option<Seq<char>>,
}

impl View for LeanSearchResult {
    type V = LeanSearchResultView;

    open spec fn view(&self) -> LeanSearchResultView {
        LeanSearchResultView {
            name: self.name@,
            module_name: self.module_name@,
            kind: opt_text(self.kind),
            type_: opt_text(self.type_),
        }
    }
}

/// What LeanSearch found.
#[derive(Debug, PartialEq, Eq)]
pub struct LeanSearchResults {
    pub items: Vec<LeanSearchResult>,
}

/// What [`LeanSearchResults`] say.
pub struct LeanSearchResultsView {
    pub items: Seq<LeanSearchResultView>,
}

impl View for LeanSearchResults {
    type V = LeanSearchResultsView;

    open spec fn view(&self) -> LeanSearchResultsView {
        LeanSearchResultsView { items: all_views(self.items@) }
    }
}

/// One hit of Loogle.
#[derive(Debug, PartialEq, Eq)]
pub struct LoogleResult {
    pub name: String,
    pub type_: String,
    pub module: String,
}

/// What a [`LoogleResult`] says.
pub struct LoogleResultView {
    pub name: Seq<char>,
    pub type_: Seq<char>,
    pub module: Seq<char>,
}

impl View for LoogleResult {
    type V = LoogleResultView;

    open spec fn view(&self) -> LoogleResultView {
        LoogleResultView {
            name: self.name@,
            type_: self.type_@,
            module: self.module@,
        }
    }
}

/// What Loogle found.
#[derive(Debug, PartialEq, Eq)]
pub struct LoogleResults {
    pub items: Vec<LoogleResult>,
}

/// What [`LoogleResults`] say.
pub struct LoogleResultsView {
    pub items: Seq<LoogleResultView>,
}

impl View for LoogleResults {
    type V = LoogleResultsView;

    open spec fn view(&self) -> LoogleResultsView {
        LoogleResultsView { items: all_views(self.items@) }
    }
}

/// One hit of Lean Finder.
#[derive(Debug, PartialEq, Eq)]
pub struct LeanFinderResult {
    pub full_name: String,
    pub formal_statement: String,
    pub informal_statement: String,
}

/// What a [`LeanFinderResult`] says.
pub struct LeanFinderResultView {
    pub full_name: Seq<char>,
    pub formal_statement: Seq<char>,
    pub informal_statement: Seq<char>,
}

impl View for LeanFinderResult {
    type V = LeanFinderResultView;

    open spec fn view(&self) -> LeanFinderResultView {
        LeanFinderResultView {
            full_name: self.full_name@,
            formal_statement: self.formal_statement@,
            informal_statement: self.informal_statement@,
        }
    }
}

/// What Lean Finder found.
#[derive(Debug, PartialEq, Eq)]
pub struct LeanFinderResults {
    pub items: Vec<LeanFinderResult>,
}

/// What [`LeanFinderResults`] say.
pub struct LeanFinderResultsView {
    pub items: Seq<LeanFinderResultView>,
}

impl View for LeanFinderResults {
    type V = LeanFinderResultsView;

    open spec fn view(&self) -> LeanFinderResultsView {
        LeanFinderResultsView { items: all_views(self.items@) }
    }
}

/// One lemma that a search for a proof state found.
#[derive(Debug, PartialEq, Eq)]
pub struct StateSearchResult {
    pub name: String,
}

/// What a [`StateSearchResult`] says.
pub struct StateSearchResultView {
    pub name: Seq<char>,
}

impl View for StateSearchResult {
    type V = StateSearchResultView;

    open spec fn view(&self) -> StateSearchResultView {
        StateSearchResultView {
            name: self.name@,
        }
    }
}

/// The lemmas that were found for a goal.
#[derive(Debug, PartialEq, Eq)]
pub struct StateSearchResults {
    pub items: Vec<StateSearchResult>,
}

/// What [`StateSearchResults`] say.
pub struct StateSearchResultsView {
    pub items: Seq<StateSearchResultView>,
}

impl View for StateSearchResults {
    type V = StateSearchResultsView;

    open spec fn view(&self) -> StateSearchResultsView {
        StateSearchResultsView { items: all_views(self.items@) }
    }
}

/// One premise that a search for a proof state found.
#[derive(Debug, PartialEq, Eq)]
pub struct PremiseResult {
    pub name: String,
}

/// What a [`PremiseResult`] says.
pub struct PremiseResultView {
    pub name: Seq<char>,
}

impl View for PremiseResult {
    type V = PremiseResultView;

    open spec fn view(&self) -> PremiseResultView {
        PremiseResultView {
            name: self.name@,
        }
    }
}

/// The premises that were found for a goal.
#[derive(Debug, PartialEq, Eq)]
pub struct PremiseResults {
    pub items: Vec<PremiseResult>,
}

/// What [`PremiseResults`] say.
pub struct PremiseResultsView {
    pub items: Seq<PremiseResultView>,
}

impl View for PremiseResults {
    type V = PremiseResultsView;

    open spec fn view(&self) -> PremiseResultsView {
        PremiseResultsView { items: all_views(self.items@) }
    }
}

/// The widgets at a position.
#[derive(Debug, PartialEq, Eq)]
pub struct WidgetsResult {
    pub widgets: Vec<Json>,
}

/// What a [`WidgetsResult`] says.
pub struct WidgetsResultView {
    pub widgets: Seq<JsonView>,
}

impl View for WidgetsResult {
    type V = WidgetsResultView;

    open spec fn view(&self) -> WidgetsResultView {
        WidgetsResultView {
            widgets: views(self.widgets@),
        }
    }
}

/// The source of a widget.
#[derive(Debug, PartialEq, Eq)]
pub struct WidgetSourceResult {
    pub source: Json,
}

/// What a [`WidgetSourceResult`] says.
pub struct WidgetSourceResultView {
    pub source: JsonView,
}

impl View for WidgetSourceResult {
    type V = WidgetSourceResultView;

    open spec fn view(&self) -> WidgetSourceResultView {
        WidgetSourceResultView {
            source: self.source@,
        }
    }
}

/// What the REPL says of one snippet.
#[derive(Debug, PartialEq, Eq)]
pub struct SnippetRun {
    pub messages: Vec<Json>,
    pub goals: Vec<String>,
    pub error: Option<String>,
}

/// What a [`SnippetRun`] says.
pub struct SnippetRunView {
    pub messages: Seq<JsonView>,
    pub goals: Seq<Seq<char>>,
    pub error: Option<Seq<char>>,
}

impl View for SnippetRun {
    type V = SnippetRunView;

    open spec fn view(&self) -> SnippetRunView {
        SnippetRunView {
            messages: views(self.messages@),
            goals: texts(self.goals@),
            error: opt_text(self.error),
        }
    }
}

/// One call of a batch.
#[derive(Debug, PartialEq, Eq)]
pub struct BatchCall {
    pub tool_name: String,
    pub arguments: Json,
}

/// What a [`BatchCall`] says.
pub struct BatchCallView {
    pub tool_name: Seq<char>,
    pub arguments: JsonView,
}

impl View for BatchCall {
    type V = BatchCallView;

    open spec fn view(&self) -> BatchCallView {
        BatchCallView {
            tool_name: self.tool_name@,
            arguments: self.arguments@,
        }
    }
}

/// What came of one call of a batch.
#[derive(Debug, PartialEq, Eq)]
pub struct BatchCallResult {
    pub tool_name: String,
    pub result: Option<Json>,
    pub is_error: bool,
    pub error: Option<String>,
}

/// What a [`BatchCallResult`] says.
pub struct BatchCallResultView {
    pub tool_name: Seq<char>,
    pub result: Option<JsonView>,
    pub is_error: bool,
    pub error: Option<Seq<char>>,
}

impl View for BatchCallResult {
    type V = BatchCallResultView;

    open spec fn view(&self) -> BatchCallResultView {
        BatchCallResultView {
            tool_name: self.tool_name@,
            result: opt_of(self.result),
            is_error: self.is_error,
            error: opt_text(self.error),
        }
    }
}

/// What came of a batch, call by call.
#[derive(Debug, PartialEq, Eq)]
pub struct BatchResult {
    pub items: Vec<BatchCallResult>,
}

/// What a [`BatchResult`] says.
pub struct BatchResultView {
    pub items: Seq<BatchCallResultView>,
}

impl View for BatchResult {
    type V = BatchResultView;

    open spec fn view(&self) -> BatchResultView {
        BatchResultView {
            items: all_views(self.items@),
        }
    }
}

/// A position (from 1) whose goals are asked for.
#[derive(Debug, PartialEq, Eq)]
pub struct BatchGoalPosition {
    pub file_path: String,
    pub line: u32,
    pub column: Option<u32>,
}

/// What a [`BatchGoalPosition`] says.
pub struct BatchGoalPositionView {
    pub file_path: Seq<char>,
    pub line: u32,
    pub column: Option<u32>,
}

impl View for BatchGoalPosition {
    type V = BatchGoalPositionView;

    open spec fn view(&self) -> BatchGoalPositionView {
        BatchGoalPositionView {
            file_path: self.file_path@,
            line: self.line,
            column: self.column,
        }
    }
}

/// The goals at one position, or why there are none.
#[derive(Debug, PartialEq, Eq)]
pub struct BatchGoalEntry {
    pub position: BatchGoalPosition,
    pub result: Option<GoalState>,
    pub error: Option<String>,
}

/// What a [`BatchGoalEntry`] says.
pub struct BatchGoalEntryView {
    pub position: BatchGoalPositionView,
    pub result: Option<GoalStateView>,
    pub error: Option<Seq<char>>,
}

impl View for BatchGoalEntry {
    type V = BatchGoalEntryView;

    open spec fn view(&self) -> BatchGoalEntryView {
        BatchGoalEntryView {
            position: self.position@,
            result: opt_of(self.result),
            error: opt_text(self.error),
        }
    }
}

/// The goals at several positions, one by one.
#[derive(Debug, PartialEq, Eq)]
pub struct BatchGoalResult {
    pub items: Vec<BatchGoalEntry>,
}

/// What a [`BatchGoalResult`] says.
pub struct BatchGoalResultView {
    pub items: Seq<BatchGoalEntryView>,
}

impl View for BatchGoalResult {
    type V = BatchGoalResultView;

    open spec fn view(&self) -> BatchGoalResultView {
        BatchGoalResultView {
            items: all_views(self.items@),
        }
    }
}

/// One declaration of a file, on lines from 1.
#[derive(Debug, PartialEq, Eq)]
pub struct OutlineEntry {
    pub name: String,
    pub kind: String,
    pub start_line: i64,
    pub end_line: i64,
    pub type_signature: Option<String>,
    pub children: Vec<OutlineEntry>,
}

/// What an [`OutlineEntry`] says.
pub struct OutlineEntryView {
    pub name: Seq<char>,
    pub kind: Seq<char>,
    pub start_line: i64,
    pub end_line: i64,
    pub type_signature: Option<Seq<char>>,
    pub children: Seq<OutlineEntryView>,
}

impl OutlineEntry {
    /// What this entry says.
    pub open spec fn as_view(self) -> OutlineEntryView
        decreases self,
    {
        OutlineEntryView {
            name: self.name@,
            kind: self.kind@,
            start_line: self.start_line,
            end_line: self.end_line,
            type_signature: opt_text(self.type_signature),
            children: Seq::new(
                self.children@.len(),
                |i: int|
                    if 0 <= i < self.children@.len() {
                        self.children@[i].as_view()
                    } else {
                        arbitrary()
                    },
            ),
        }
    }
}

impl View for OutlineEntry {
    type V = OutlineEntryView;

    open spec fn view(&self) -> OutlineEntryView {
        self.as_view()
    }
}

/// The imports and declarations of a file.
#[derive(Debug, PartialEq, Eq)]
pub struct FileOutline {
    pub imports: Vec<String>,
    pub declarations: Vec<OutlineEntry>,
    pub total_declarations: Option<i64>,
}

/// What a [`FileOutline`] says.
pub struct FileOutlineView {
    pub imports: Seq<Seq<char>>,
    pub declarations: Seq<OutlineEntryView>,
    pub total_declarations: Option<i64>,
}

impl View for FileOutline {
    type V = FileOutlineView;

    open spec fn view(&self) -> FileOutlineView {
        FileOutlineView {
            imports: texts(self.imports@),
            declarations: all_views(self.declarations@),
            total_declarations: self.total_declarations,
        }
    }
}

} // verus!
