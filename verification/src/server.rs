//! The server: what its tools are asked with and how a request is served.
use crate::error::{ErrorView, LeanToolError};
use crate::json::{Json, JsonView};
use crate::models::{opt_str, opt_text, BatchCall, BatchGoalPosition};
use crate::protocol::{
    begins, followed, lemma_followed, waiting_first, Call, Dialogue, Reply, ReplyView, Request,
    RequestView, Turn, Waiting, Waits,
};
use crate::text::{glue3, same_text};
use crate::tools::symbol_resolve::{line_dialogue, resolve_declaration_line, DeclarationLine};
use crate::tools::toolbox::{
    answer, answer_dialogue, answer_said, error_told, flag_or, or_flag, AnswerCall, AnswerSaid,
    Settings, SettingsView, ToolCall, ToolOutcome,
};
use vstd::prelude::*;
use vstd::string::*;

verus! {

// ---------------------------------------------------------------------------
// What the tools are asked with
// ---------------------------------------------------------------------------

/// What is asked for with building the project.
#[derive(Debug, PartialEq, Eq)]
pub struct BuildParams {
    /// Run `lake clean` first (slow).
    pub clean: Option<bool>,
    /// Return last N lines of build log (0=none).
    pub output_lines: Option<usize>,
}

/// What is asked for with an outline of a file.
#[derive(Debug, PartialEq, Eq)]
pub struct FileOutlineParams {
    /// Absolute or project-root-relative path to Lean file.
    pub file_path: String,
    /// Max declarations to return.
    pub max_declarations: Option<usize>,
}

/// What is asked for with the diagnostics of a file.
#[derive(Debug, PartialEq, Eq)]
pub struct DiagnosticParams {
    /// Absolute or project-root-relative path to Lean file.
    pub file_path: String,
    /// Filter from line (1-indexed).
    pub start_line: Option<u32>,
    /// Filter to line (1-indexed).
    pub end_line: Option<u32>,
    /// Filter by severity: error, warning, information, hint.
    pub severity: Option<String>,
    /// Filter to a specific declaration (slow).
    pub declaration_name: Option<String>,
    /// Return verbose nested TaggedText with embedded widgets.
    pub interactive: Option<bool>,
}

/// What is asked for with the goals at a position.
#[derive(Debug, PartialEq, Eq)]
pub struct GoalParams {
    /// Absolute or project-root-relative path to Lean file.
    pub file_path: String,
    /// Line number (1-indexed).
    pub line: u32,
    /// Column (1-indexed). Omit for before/after.
    pub column: Option<u32>,
    /// Declaration name to resolve line from (overrides line).
    pub declaration_name: Option<String>,
}

/// What is asked for with the expected type at a position.
#[derive(Debug, PartialEq, Eq)]
pub struct TermGoalParams {
    /// Absolute or project-root-relative path to Lean file.
    pub file_path: String,
    /// Line number (1-indexed).
    pub line: u32,
    /// Column (1-indexed, defaults to end of line).
    pub column: Option<u32>,
    /// Declaration name to resolve line from (overrides line).
    pub declaration_name: Option<String>,
}

/// What is asked for with what is known of a symbol.
#[derive(Debug, PartialEq, Eq)]
pub struct HoverParams {
    /// Absolute or project-root-relative path to Lean file.
    pub file_path: String,
    /// Line number (1-indexed).
    pub line: u32,
    /// Column at START of identifier (1-indexed).
    pub column: u32,
    /// Declaration name to resolve line from (overrides line).
    pub declaration_name: Option<String>,
}

/// What is asked for with completions.
#[derive(Debug, PartialEq, Eq)]
pub struct CompletionsParams {
    /// Absolute or project-root-relative path to Lean file.
    pub file_path: String,
    /// Line number (1-indexed).
    pub line: u32,
    /// Column number (1-indexed).
    pub column: u32,
    /// Max completions to return.
    pub max_completions: Option<usize>,
    /// Declaration name to resolve line from (overrides line).
    pub declaration_name: Option<String>,
}

/// What is asked for with where a symbol is declared.
#[derive(Debug, PartialEq, Eq)]
pub struct DeclarationParams {
    /// Absolute or project-root-relative path to Lean file.
    pub file_path: String,
    /// Symbol name (case sensitive, must be in file).
    pub symbol: String,
}

/// What is asked for with where a symbol is used.
#[derive(Debug, PartialEq, Eq)]
pub struct ReferencesParams {
    /// Absolute path to Lean file.
    pub file_path: String,
    /// Line number (1-indexed).
    pub line: u32,
    /// Column at START of identifier (1-indexed).
    pub column: u32,
    /// Declaration name to resolve line from (overrides line).
    pub declaration_name: Option<String>,
}

/// What is asked for with trying several tactics.
#[derive(Debug, PartialEq, Eq)]
pub struct MultiAttemptParams {
    /// Absolute or project-root-relative path to Lean file.
    pub file_path: String,
    /// Line number (1-indexed).
    pub line: u32,
    /// Tactics to try (3+ recommended).
    pub snippets: Vec<String>,
    /// Column (1-indexed). Omit to target the tactic line.
    pub column: Option<u32>,
    /// When true, test each snippet via independent temp files (no file mutation,
    /// concurrent execution). Omit or false for default REPL/LSP path.
    pub parallel: Option<bool>,
    /// Max seconds per snippet (returns 'timeout' for slow tactics). Only applies to parallel mode.
    pub timeout_per_snippet: Option<String>,
}

/// What is asked for with running code.
#[derive(Debug, PartialEq, Eq)]
pub struct RunCodeParams {
    /// Self-contained Lean code with imports.
    pub code: String,
}

/// What is asked for with checking a theorem.
#[derive(Debug, PartialEq, Eq)]
pub struct VerifyParams {
    /// Absolute path to Lean file.
    pub file_path: String,
    /// Fully qualified name (e.g. `Namespace.theorem`).
    pub theorem_name: String,
    /// Scan source file for suspicious patterns.
    pub scan_source: Option<bool>,
}

/// What is asked for with a search in the project.
#[derive(Debug, PartialEq, Eq)]
pub struct LocalSearchParams {
    /// Declaration name or prefix.
    pub query: String,
    /// Max matches.
    pub limit: Option<usize>,
    /// Project root (inferred if omitted).
    pub project_root: Option<String>,
}

/// What is asked for with a search with LeanSearch.
#[derive(Debug, PartialEq, Eq)]
pub struct LeanSearchParams {
    /// Natural language or Lean term query.
    pub query: String,
    /// Max results.
    pub num_results: Option<usize>,
}

/// What is asked for with a search with Loogle.
#[derive(Debug, PartialEq, Eq)]
pub struct LoogleParams {
    /// Type pattern, constant, or name substring.
    pub query: String,
    /// Max results.
    pub num_results: Option<usize>,
}

/// What is asked for with a search with Lean Finder.
#[derive(Debug, PartialEq, Eq)]
pub struct LeanFinderParams {
    /// Mathematical concept or proof state.
    pub query: String,
    /// Max results.
    pub num_results: Option<usize>,
}

/// What is asked for with a search of lemmas for a goal.
#[derive(Debug, PartialEq, Eq)]
pub struct StateSearchParams {
    /// Absolute or project-root-relative path to Lean file.
    pub file_path: String,
    /// Line number (1-indexed).
    pub line: u32,
    /// Column number (1-indexed).
    pub column: u32,
    /// Max results.
    pub num_results: Option<usize>,
}

/// What is asked for with a search of premises for a goal.
#[derive(Debug, PartialEq, Eq)]
pub struct HammerPremiseParams {
    /// Absolute or project-root-relative path to Lean file.
    pub file_path: String,
    /// Line number (1-indexed).
    pub line: u32,
    /// Column number (1-indexed).
    pub column: u32,
    /// Max results.
    pub num_results: Option<usize>,
}

/// What is asked for with the code actions of a line.
#[derive(Debug, PartialEq, Eq)]
pub struct CodeActionsParams {
    /// Absolute path to Lean file.
    pub file_path: String,
    /// Line number (1-indexed).
    pub line: u32,
}

/// What is asked for with the widgets at a position.
#[derive(Debug, PartialEq, Eq)]
pub struct GetWidgetsParams {
    /// Absolute path to Lean file.
    pub file_path: String,
    /// Line number (1-indexed).
    pub line: u32,
    /// Column number (1-indexed).
    pub column: u32,
}

/// What is asked for with the source of a widget.
#[derive(Debug, PartialEq, Eq)]
pub struct WidgetSourceParams {
    /// Absolute path to Lean file.
    pub file_path: String,
    /// javascriptHash from a widget instance.
    pub javascript_hash: String,
}

/// What is asked for with profiling a proof.
#[derive(Debug, PartialEq, Eq)]
pub struct ProfileProofParams {
    /// Absolute or project-root-relative path to Lean file.
    pub file_path: String,
    /// Line where theorem starts (1-indexed).
    pub line: u32,
    /// Number of slowest lines to return.
    pub top_n: Option<usize>,
    /// Max seconds to wait.
    pub timeout: Option<String>,
}

/// What is asked for with the goals at many positions.
#[derive(Debug, PartialEq, Eq)]
pub struct BatchGoalParams {
    /// The positions to query.
    pub positions: Vec<BatchGoalPosition>,
}

/// What is asked for with what a tactic changes.
#[derive(Debug, PartialEq, Eq)]
pub struct ProofDiffParams {
    /// Absolute or project-root-relative path to Lean file.
    pub file_path: String,
    /// Line before the tactic (1-indexed).
    pub before_line: u32,
    /// Column on before_line (1-indexed, defaults to end of line).
    pub before_column: Option<u32>,
    /// Line after the tactic (1-indexed).
    pub after_line: u32,
    /// Column on after_line (1-indexed, defaults to end of line).
    pub after_column: Option<u32>,
}

/// What is asked for with many tool calls at once.
#[derive(Debug, PartialEq, Eq)]
pub struct BatchParams {
    /// The calls to execute concurrently.
    pub calls: Vec<BatchCall>,
}

/// What is asked for with the health of the project.
#[derive(Debug, PartialEq, Eq)]
pub struct ProjectHealthParams {
    /// Fetch goal states at sorry positions (slow, requires LSP).
    pub include_goals: Option<bool>,
}

/// What is asked for with what has become of a background task.
#[derive(Debug, PartialEq, Eq)]
pub struct TaskResultParams {
    /// Task ID returned by lean_multi_attempt_async.
    pub task_id: String,
    /// Set true to cancel the task and abort remaining work.
    pub cancel: Option<bool>,
}

// ---------------------------------------------------------------------------
// What the server says of itself
// ---------------------------------------------------------------------------

/// The name under which the server announces itself.
pub fn server_name() -> (r: &'static str)
    ensures
        r@ == "Lean LSP"@,
{
    "Lean LSP"
}

/// The version of the server.
pub fn server_version() -> (r: &'static str)
    ensures
        r@ == "0.1.0"@,
{
    "0.1.0"
}

// ---------------------------------------------------------------------------
// The project
// ---------------------------------------------------------------------------

/// The root of a project, or what the user is told where there is none.
pub type ProjectSaid = Result<Seq<char>, Seq<char>>;

/// What the user is told where no project is found.
pub open spec fn no_project_found() -> Seq<char> {
    "No Lean project path configured and auto-detection failed. Pass --lean-project-path or run from within a Lean project directory."@
}

/// After a project was looked for from the working directory.
pub open spec fn directory_searched() -> Waiting<ProjectSaid> {
    |r: ReplyView|
        Dialogue::Finish(
            match r {
                ReplyView::MaybeText(Some(project)) => Ok(project),
                _ => Err(no_project_found()),
            },
        )
}

/// After a project was looked for from a file.
pub open spec fn file_searched() -> Waiting<ProjectSaid> {
    |r: ReplyView|
        match r {
            ReplyView::MaybeText(Some(project)) => Dialogue::Finish(Ok(project)),
            _ => Dialogue::Ask(RequestView::DetectProject { from: None }, directory_searched()),
        }
}

/// The project that counts: the one that was set, or else the one that holds the
/// file, or else the one that holds the working directory.
pub open spec fn project_dialogue(set: Option<Seq<char>>, file: Option<Seq<char>>) -> Dialogue<
    ProjectSaid,
> {
    match set {
        Some(project) => Dialogue::Finish(Ok(project)),
        None => match file {
            Some(path) => Dialogue::Ask(
                RequestView::DetectProject { from: Some(path) },
                file_searched(),
            ),
            None => Dialogue::Ask(RequestView::DetectProject { from: None }, directory_searched()),
        },
    }
}

/// The search for a project at work.
pub enum ProjectCall {
    /// Waits for the project that holds the file.
    ByFile,
    /// Waits for the project that holds the working directory.
    ByDirectory,
}

impl Waits for ProjectCall {
    type Out = Result<String, String>;

    type Said = ProjectSaid;

    open spec fn said(o: Self::Out) -> ProjectSaid {
        match o {
            Ok(p) => Ok(p@),
            Err(m) => Err(m@),
        }
    }

    open spec fn valid(self) -> bool {
        true
    }

    open spec fn waiting(self) -> Waiting<ProjectSaid> {
        match self {
            ProjectCall::ByFile => file_searched(),
            ProjectCall::ByDirectory => directory_searched(),
        }
    }

    open spec fn admits(self, r: ReplyView) -> bool {
        true
    }
}

impl Call for ProjectCall {
    fn accepts(&self, reply: &Reply) -> (r: bool) {
        true
    }

    fn resume(self, reply: Reply) -> (t: Turn<Self, Self::Out>) {
        match reply {
            Reply::MaybeText(Some(project)) => Turn::Done(Ok(project)),
            _ => match self {
                ProjectCall::ByFile => Turn::Ask(
                    Request::DetectProject { from: None },
                    ProjectCall::ByDirectory,
                ),
                ProjectCall::ByDirectory => Turn::Done(
                    Err(
                        "No Lean project path configured and auto-detection failed. Pass --lean-project-path or run from within a Lean project directory.".to_owned(),
                    ),
                ),
            },
        }
    }
}

/// The project that counts.
pub fn resolve_project_path(set: Option<&str>, file_path: Option<&str>) -> (t: Turn<
    ProjectCall,
    Result<String, String>,
>)
    ensures
        begins(t, project_dialogue(opt_str(set), opt_str(file_path))),
{
    match set {
        Some(project) => Turn::Done(Ok(project.to_owned())),
        None => match file_path {
            Some(path) => Turn::Ask(
                Request::DetectProject { from: Some(path.to_owned()) },
                ProjectCall::ByFile,
            ),
            None => Turn::Ask(Request::DetectProject { from: None }, ProjectCall::ByDirectory),
        },
    }
}

/// A project that was set always counts: nothing is looked for.
pub proof fn lemma_set_project_counts(project: Seq<char>, file: Option<Seq<char>>)
    ensures
        project_dialogue(Some(project), file) == Dialogue::Finish(
            Ok::<Seq<char>, Seq<char>>(project),
        ),
{
}

/// Where none was set, the project that holds the file counts, whatever holds the
/// working directory.
pub proof fn lemma_file_project_counts(file: Seq<char>, project: Seq<char>)
    ensures
        project_dialogue(None, Some(file)).after(
            seq![ReplyView::MaybeText(Some(project))],
        ) == Dialogue::Finish(Ok::<Seq<char>, Seq<char>>(project)),
{
    let rs = seq![ReplyView::MaybeText(Some(project))];
    reveal_with_fuel(Dialogue::after, 3);
    assert(rs[0] == ReplyView::MaybeText(Some(project)));
}

/// Where none was set and none holds the file, the project that holds the working
/// directory counts; where there is none either, the user is told so.
pub proof fn lemma_directory_project_counts(file: Seq<char>, found: Option<Seq<char>>)
    ensures
        project_dialogue(None, Some(file)).after(
            seq![ReplyView::MaybeText(None), ReplyView::MaybeText(found)],
        ) == Dialogue::Finish(
            match found {
                Some(project) => Ok::<Seq<char>, Seq<char>>(project),
                None => Err(no_project_found()),
            },
        ),
{
    let rs = seq![ReplyView::MaybeText(None), ReplyView::MaybeText(found)];
    reveal_with_fuel(Dialogue::after, 3);
    assert(rs[0] == ReplyView::MaybeText(None));
    assert(rs.skip(1)[0] == ReplyView::MaybeText(found));
}

// ---------------------------------------------------------------------------
// Language servers
// ---------------------------------------------------------------------------

/// The language servers that run, no more than one for each project.
pub struct ClientTable<C> {
    entries: Vec<(String, C)>,
}

/// Where a project stands among some entries, from `i` on.
pub open spec fn entry_of<C>(entries: Seq<(String, C)>, project: Seq<char>, i: int) -> Option<int>
    decreases entries.len() - i,
{
    if i >= entries.len() {
        None
    } else if entries[i].0@ == project {
        Some(i)
    } else {
        entry_of(entries, project, i + 1)
    }
}

/// What is found among entries is an entry of the project.
proof fn lemma_entry_of<C>(entries: Seq<(String, C)>, project: Seq<char>, i: int)
    requires
        0 <= i,
    ensures
        match entry_of(entries, project, i) {
            Some(j) => i <= j < entries.len() && entries[j].0@ == project,
            None => forall|j: int| i <= j < entries.len() ==> (#[trigger] entries[j]).0@ != project,
        },
    decreases entries.len() - i,
{
    if i < entries.len() {
        lemma_entry_of(entries, project, i + 1);
    }
}

/// One more entry, of another project, changes nothing for the others.
proof fn lemma_entry_push<C>(entries: Seq<(String, C)>, e: (String, C), project: Seq<char>, i: int)
    requires
        0 <= i <= entries.len(),
    ensures
        entry_of(entries.push(e), project, i) == match entry_of(entries, project, i) {
            Some(j) => Some(j),
            None => if e.0@ == project {
                Some(entries.len() as int)
            } else {
                None
            },
        },
    decreases entries.len() - i,
{
    if i < entries.len() {
        assert(entries.push(e)[i] == entries[i]);
        lemma_entry_push(entries, e, project, i + 1);
    } else {
        assert(entries.push(e)[i] == e);
        assert(entry_of(entries.push(e), project, i + 1) is None);
    }
}

impl<C> View for ClientTable<C> {
    type V = Map<Seq<char>, C>;

    closed spec fn view(&self) -> Map<Seq<char>, C> {
        Map::new(
            |project: Seq<char>| entry_of(self.entries@, project, 0) is Some,
            |project: Seq<char>| self.entries@[entry_of(self.entries@, project, 0)->0].1,
        )
    }
}

impl<C> ClientTable<C> {
    /// No language server runs.
    pub fn new() -> (r: ClientTable<C>)
        ensures
            r@ == Map::<Seq<char>, C>::empty(),
            unshared(r@),
    {
        let r = ClientTable { entries: Vec::new() };
        proof {
            assert(r@ =~= Map::<Seq<char>, C>::empty());
        }
        r
    }

    /// The language server of a project.
    pub fn get(&self, project: &str) -> (r: Option<&C>)
        ensures
            match r {
                Some(c) => self@.contains_key(project@) && self@[project@] == *c,
                None => !self@.contains_key(project@),
            },
    {
        let ghost all = self.entries@;
        for i in 0..self.entries.len()
            invariant
                all == self.entries@,
                entry_of(all, project@, 0) == entry_of(all, project@, i as int),
        {
            if same_text(self.entries[i].0.as_str(), project) {
                return Some(&self.entries[i].1);
            }
        }
        None
    }

    /// Keeps the language server of a project that has none yet.
    fn insert(&mut self, project: String, client: C)
        requires
            !old(self)@.contains_key(project@),
        ensures
            final(self)@ == old(self)@.insert(project@, client),
    {
        let ghost before = self.entries@;
        let ghost was = self@;
        self.entries.push((project, client));
        proof {
            let e = (project, client);
            assert(self.entries@ == before.push(e));
            assert forall|p: Seq<char>| #[trigger]
                self@.contains_key(p) == was.insert(project@, client).contains_key(p) && (
                self@.contains_key(p) ==> self@[p] == was.insert(project@, client)[p]) by {
                lemma_entry_push(before, e, p, 0);
                lemma_entry_of(before, p, 0);
                lemma_entry_of(before, project@, 0);
            }
            assert(self@ =~= was.insert(project@, client));
        }
    }

    /// Keeps the language server that was started for a project, unless it has one
    /// by now. Where the project has none in the end, tells why.
    pub fn ensure_client_for(&mut self, project: &str, started: Result<C, String>) -> (r: Result<
        (),
        String,
    >)
        ensures
            final(self)@ == clients_after(old(self)@, project@, started_view(started)),
            match r {
                Ok(_) => client_given(old(self)@, project@, started_view(started)) == Ok::<
                    C,
                    Seq<char>,
                >(final(self)@[project@]) && final(self)@.contains_key(project@),
                Err(m) => client_given(old(self)@, project@, started_view(started)) == Err::<
                    C,
                    Seq<char>,
                >(m@),
            },
            unshared(old(self)@) && is_new(old(self)@, started_view(started)) ==> unshared(
                final(self)@,
            ),
    {
        proof {
            if unshared(self@) && is_new(self@, started_view(started)) {
                lemma_own_clients(self@, project@, started_view(started));
            }
        }
        if self.get(project).is_some() {
            return Ok(());
        }
        match started {
            Ok(client) => {
                self.insert(project.to_owned(), client);
                Ok(())
            },
            Err(m) => Err(m),
        }
    }
}

/// The language servers after one was asked for: where the project had none and
/// one could be started, it is kept.
pub open spec fn clients_after<C>(
    table: Map<Seq<char>, C>,
    project: Seq<char>,
    started: Result<C, Seq<char>>,
) -> Map<Seq<char>, C> {
    match started {
        Ok(client) => if table.contains_key(project) {
            table
        } else {
            table.insert(project, client)
        },
        Err(_) => table,
    }
}

/// The language server that a project is given: the one that it has, or else the
/// one that was started, if one was.
pub open spec fn client_given<C>(
    table: Map<Seq<char>, C>,
    project: Seq<char>,
    started: Result<C, Seq<char>>,
) -> Result<C, Seq<char>> {
    if table.contains_key(project) {
        Ok(table[project])
    } else {
        started
    }
}

/// A language server that was started, or why none was.
pub open spec fn started_view<C>(started: Result<C, String>) -> Result<C, Seq<char>> {
    match started {
        Ok(client) => Ok(client),
        Err(m) => Err(m@),
    }
}

/// Whether no two projects have the same language server.
pub open spec fn unshared<C>(table: Map<Seq<char>, C>) -> bool {
    forall|p: Seq<char>, q: Seq<char>|
        #![trigger table[p], table[q]]
        table.contains_key(p) && table.contains_key(q) && p != q ==> table[p] != table[q]
}

/// Whether a language server that was started is none of those that are there.
pub open spec fn is_new<C>(table: Map<Seq<char>, C>, started: Result<C, Seq<char>>) -> bool {
    started matches Ok(client) ==> forall|p: Seq<char>|
        table.contains_key(p) ==> #[trigger] table[p] != client
}

/// Where each language server that is started is a new one, no two projects ever
/// come to have the same.
pub proof fn lemma_own_clients<C>(
    table: Map<Seq<char>, C>,
    project: Seq<char>,
    started: Result<C, Seq<char>>,
)
    requires
        unshared(table),
        is_new(table, started),
    ensures
        unshared(clients_after(table, project, started)),
{
    let after = clients_after(table, project, started);
    assert forall|p: Seq<char>, q: Seq<char>|
        #![trigger after[p], after[q]]
        after.contains_key(p) && after.contains_key(q) && p != q implies after[p] != after[q] by {
        if p != project {
            assert(after[p] == table[p]);
        }
        if q != project {
            assert(after[q] == table[q]);
        }
    }
}

/// A project is never given the language server that another was given: neither
/// the one that it has by then, nor the one that is started for it.
pub proof fn lemma_clients_apart<C>(
    table: Map<Seq<char>, C>,
    project: Seq<char>,
    started: Result<C, Seq<char>>,
    other: Seq<char>,
    again: Result<C, Seq<char>>,
)
    requires
        unshared(table),
        is_new(table, started),
        is_new(clients_after(table, project, started), again),
        other != project,
        client_given(table, project, started) is Ok,
    ensures
        client_given(clients_after(table, project, started), other, again) != client_given(
            table,
            project,
            started,
        ),
{
    let after = clients_after(table, project, started);
    lemma_own_clients(table, project, started);
    assert(client_given(table, project, started) == Ok::<C, Seq<char>>(after[project]));
    if after.contains_key(other) {
        assert(after[other] != after[project]);
    }
}

/// Once a project was given a language server, it is given the same one whenever it
/// asks again, and nothing changes; what one project asks for changes nothing for
/// another; and where no server could be started, nothing changes at all.
pub proof fn lemma_client_kept<C>(
    table: Map<Seq<char>, C>,
    project: Seq<char>,
    started: Result<C, Seq<char>>,
    again: Result<C, Seq<char>>,
    other: Seq<char>,
)
    ensures
        ({
            let after = clients_after(table, project, started);
            let given = client_given(table, project, started);
            &&& given is Ok ==> client_given(after, project, again) == given
            &&& given is Ok ==> clients_after(after, project, again) == after
            &&& other != project ==> after.contains_key(other) == table.contains_key(other)
            &&& other != project ==> client_given(after, other, again) == client_given(
                table,
                other,
                again,
            )
            &&& started is Err ==> after == table
        }),
{
}

// ---------------------------------------------------------------------------
// How a call is served
// ---------------------------------------------------------------------------

/// What a call works in.
#[derive(Debug, Clone, Copy, PartialEq, Eq, Structural)]
pub enum Place {
    /// Nothing.
    Anywhere,
    /// A project.
    Project,
    /// A project with its language server.
    Client,
}

/// What a call works in.
pub open spec fn place_of(call: ToolCall) -> Place {
    match call {
        ToolCall::LeanSearch(_) => Place::Anywhere,
        ToolCall::Loogle(_) => Place::Anywhere,
        ToolCall::LeanFinder(_) => Place::Anywhere,
        ToolCall::LocalSearch(p) => if p.project_root is Some {
            Place::Anywhere
        } else {
            Place::Project
        },
        ToolCall::Build(_) => Place::Project,
        ToolCall::Profile(_) => Place::Project,
        ToolCall::ProjectHealth(p) => if flag_or(p.include_goals, false) {
            Place::Client
        } else {
            Place::Project
        },
        _ => Place::Client,
    }
}

/// What a call works in.
fn find_place(call: &ToolCall) -> (r: Place)
    ensures
        r == place_of(*call),
{
    match call {
        ToolCall::LeanSearch(_) => Place::Anywhere,
        ToolCall::Loogle(_) => Place::Anywhere,
        ToolCall::LeanFinder(_) => Place::Anywhere,
        ToolCall::LocalSearch(p) => if p.project_root.is_some() {
            Place::Anywhere
        } else {
            Place::Project
        },
        ToolCall::Build(_) => Place::Project,
        ToolCall::Profile(_) => Place::Project,
        ToolCall::ProjectHealth(p) => if or_flag(p.include_goals, false) {
            Place::Client
        } else {
            Place::Project
        },
        _ => Place::Client,
    }
}

/// The file that a call is about.
pub open spec fn file_of(call: ToolCall) -> Option<Seq<char>> {
    match call {
        ToolCall::Goal(p) => Some(p.file_path@),
        ToolCall::TermGoal(p) => Some(p.file_path@),
        ToolCall::Hover(p) => Some(p.file_path@),
        ToolCall::Completions(p) => Some(p.file_path@),
        ToolCall::Diagnostics(p) => Some(p.file_path@),
        ToolCall::Outline(p) => Some(p.file_path@),
        ToolCall::Declaration(p) => Some(p.file_path@),
        ToolCall::References(p) => Some(p.file_path@),
        ToolCall::MultiAttempt(p) => Some(p.file_path@),
        ToolCall::Verify(p) => Some(p.file_path@),
        ToolCall::Profile(p) => Some(p.file_path@),
        ToolCall::StateSearch(p) => Some(p.file_path@),
        ToolCall::Premises(p) => Some(p.file_path@),
        ToolCall::CodeActions(p) => Some(p.file_path@),
        ToolCall::Widgets(p) => Some(p.file_path@),
        ToolCall::WidgetSource(p) => Some(p.file_path@),
        ToolCall::ProofDiff(p) => Some(p.file_path@),
        _ => None,
    }
}

/// The file that a call is about.
fn find_file(call: &ToolCall) -> (r: Option<&str>)
    ensures
        opt_str(r) == file_of(*call),
{
    match call {
        ToolCall::Goal(p) => Some(p.file_path.as_str()),
        ToolCall::TermGoal(p) => Some(p.file_path.as_str()),
        ToolCall::Hover(p) => Some(p.file_path.as_str()),
        ToolCall::Completions(p) => Some(p.file_path.as_str()),
        ToolCall::Diagnostics(p) => Some(p.file_path.as_str()),
        ToolCall::Outline(p) => Some(p.file_path.as_str()),
        ToolCall::Declaration(p) => Some(p.file_path.as_str()),
        ToolCall::References(p) => Some(p.file_path.as_str()),
        ToolCall::MultiAttempt(p) => Some(p.file_path.as_str()),
        ToolCall::Verify(p) => Some(p.file_path.as_str()),
        ToolCall::Profile(p) => Some(p.file_path.as_str()),
        ToolCall::StateSearch(p) => Some(p.file_path.as_str()),
        ToolCall::Premises(p) => Some(p.file_path.as_str()),
        ToolCall::CodeActions(p) => Some(p.file_path.as_str()),
        ToolCall::Widgets(p) => Some(p.file_path.as_str()),
        ToolCall::WidgetSource(p) => Some(p.file_path.as_str()),
        ToolCall::ProofDiff(p) => Some(p.file_path.as_str()),
        _ => None,
    }
}

/// The declaration whose line counts in place of the one that was asked for.
pub open spec fn declaration_of(call: ToolCall) -> Option<Seq<char>> {
    match call {
        ToolCall::Goal(p) => opt_text(p.declaration_name),
        ToolCall::TermGoal(p) => opt_text(p.declaration_name),
        ToolCall::Hover(p) => opt_text(p.declaration_name),
        ToolCall::Completions(p) => opt_text(p.declaration_name),
        ToolCall::References(p) => opt_text(p.declaration_name),
        _ => None,
    }
}

/// The file and the declaration whose line counts in place of the one that was
/// asked for.
fn find_declaration(call: &ToolCall) -> (r: Option<(&str, &str)>)
    ensures
        match r {
            Some((file, name)) => file_of(*call) == Some(file@) && declaration_of(*call) == Some(
                name@,
            ),
            None => declaration_of(*call) is None,
        },
{
    let (file, name) = match call {
        ToolCall::Goal(p) => (p.file_path.as_str(), &p.declaration_name),
        ToolCall::TermGoal(p) => (p.file_path.as_str(), &p.declaration_name),
        ToolCall::Hover(p) => (p.file_path.as_str(), &p.declaration_name),
        ToolCall::Completions(p) => (p.file_path.as_str(), &p.declaration_name),
        ToolCall::References(p) => (p.file_path.as_str(), &p.declaration_name),
        _ => return None,
    };
    match name {
        Some(name) => Some((file, name.as_str())),
        None => None,
    }
}

/// A call at another line.
pub open spec fn at_line(call: ToolCall, line: u32) -> ToolCall {
    match call {
        ToolCall::Goal(p) => ToolCall::Goal(GoalParams { line, ..p }),
        ToolCall::TermGoal(p) => ToolCall::TermGoal(TermGoalParams { line, ..p }),
        ToolCall::Hover(p) => ToolCall::Hover(HoverParams { line, ..p }),
        ToolCall::Completions(p) => ToolCall::Completions(CompletionsParams { line, ..p }),
        ToolCall::References(p) => ToolCall::References(ReferencesParams { line, ..p }),
        _ => call,
    }
}

/// A call at another line.
fn move_to(call: ToolCall, line: u32) -> (r: ToolCall)
    ensures
        r == at_line(call, line),
{
    match call {
        ToolCall::Goal(p) => ToolCall::Goal(GoalParams { line, ..p }),
        ToolCall::TermGoal(p) => ToolCall::TermGoal(TermGoalParams { line, ..p }),
        ToolCall::Hover(p) => ToolCall::Hover(HoverParams { line, ..p }),
        ToolCall::Completions(p) => ToolCall::Completions(CompletionsParams { line, ..p }),
        ToolCall::References(p) => ToolCall::References(ReferencesParams { line, ..p }),
        other => other,
    }
}

/// Goes on where the line of a declaration is known.
pub open spec fn line_found(call: ToolCall, s: SettingsView) -> spec_fn(
    Result<u32, ErrorView>,
) -> Dialogue<AnswerSaid> {
    |res: Result<u32, ErrorView>|
        match res {
            Ok(line) => answer_dialogue(at_line(call, line), s),
            Err(error) => Dialogue::Ask(RequestView::ErrorText { error }, error_told()),
        }
}

/// After the project was entered.
pub open spec fn project_entered(call: ToolCall, s: SettingsView) -> Waiting<AnswerSaid> {
    |r: ReplyView|
        if r is Done {
            match (file_of(call), declaration_of(call)) {
                (Some(file), Some(name)) => followed(
                    line_dialogue(file, name),
                    line_found(call, s),
                ),
                _ => answer_dialogue(call, s),
            }
        } else {
            Dialogue::Finish(Err(r.trouble()))
        }
}

/// Goes on where the project is known.
pub open spec fn project_found(call: ToolCall, s: SettingsView) -> spec_fn(ProjectSaid) -> Dialogue<
    AnswerSaid,
> {
    |res: ProjectSaid|
        match res {
            Ok(project) => Dialogue::Ask(
                RequestView::EnterProject { project, client: place_of(call) == Place::Client },
                project_entered(call, s),
            ),
            Err(m) => Dialogue::Finish(Err(m)),
        }
}

/// The whole of a call: its project, its line where a declaration is named, and
/// the tool.
pub open spec fn serve_dialogue(
    call: ToolCall,
    set: Option<Seq<char>>,
    s: SettingsView,
) -> Dialogue<AnswerSaid> {
    if place_of(call) == Place::Anywhere {
        answer_dialogue(call, s)
    } else {
        followed(project_dialogue(set, file_of(call)), project_found(call, s))
    }
}

/// A call that is served.
pub enum ServeCall {
    /// Waits for the project.
    Finding { search: ProjectCall, call: ToolCall, settings: Settings },
    /// Waits until the project is entered.
    Entering { call: ToolCall, settings: Settings },
    /// Waits for the line of a declaration.
    Resolving { line: DeclarationLine, call: ToolCall, settings: Settings },
    /// Waits for the words that tell of an error.
    Telling,
    /// The tool is at work.
    Answering(AnswerCall),
}

impl Waits for ServeCall {
    type Out = Result<ToolOutcome, String>;

    type Said = AnswerSaid;

    open spec fn said(o: Self::Out) -> AnswerSaid {
        answer_said(o)
    }

    open spec fn valid(self) -> bool {
        match self {
            ServeCall::Finding { search, call, settings } => search.valid(),
            ServeCall::Entering { call, settings } => true,
            ServeCall::Resolving { line, call, settings } => line.valid(),
            ServeCall::Telling => true,
            ServeCall::Answering(c) => c.valid(),
        }
    }

    open spec fn waiting(self) -> Waiting<AnswerSaid> {
        match self {
            ServeCall::Finding { search, call, settings } => waiting_first(
                search.waiting(),
                project_found(call, settings@),
            ),
            ServeCall::Entering { call, settings } => project_entered(call, settings@),
            ServeCall::Resolving { line, call, settings } => waiting_first(
                line.waiting(),
                line_found(call, settings@),
            ),
            ServeCall::Telling => error_told(),
            ServeCall::Answering(c) => c.waiting(),
        }
    }

    open spec fn admits(self, r: ReplyView) -> bool {
        match self {
            ServeCall::Finding { search, call, settings } => search.admits(r),
            ServeCall::Entering { call, settings } => true,
            ServeCall::Resolving { line, call, settings } => line.admits(r),
            ServeCall::Telling => true,
            ServeCall::Answering(c) => c.admits(r),
        }
    }
}

impl ServeCall {
    /// Goes on with the tool.
    fn answered(t: Turn<AnswerCall, Result<ToolOutcome, String>>) -> (r: Turn<
        ServeCall,
        Result<ToolOutcome, String>,
    >)
        ensures
            forall|d: Dialogue<AnswerSaid>| #[trigger] begins(t, d) ==> begins(r, d),
    {
        match t {
            Turn::Ask(q, c) => Turn::Ask(q, ServeCall::Answering(c)),
            Turn::Done(o) => Turn::Done(o),
        }
    }

    /// Goes on with the search for the project.
    fn found(
        t: Turn<ProjectCall, Result<String, String>>,
        call: ToolCall,
        settings: Settings,
    ) -> (r:
        Turn<ServeCall, Result<ToolOutcome, String>>)
        ensures
            forall|d: Dialogue<ProjectSaid>| #[trigger]
                begins(t, d) ==> begins(r, followed(d, project_found(call, settings@))),
    {
        match t {
            Turn::Ask(q, search) => {
                proof {
                    lemma_followed(q@, search.waiting(), project_found(call, settings@));
                }
                Turn::Ask(q, ServeCall::Finding { search, call, settings })
            },
            Turn::Done(Ok(project)) => {
                let client = find_place(&call) == Place::Client;
                Turn::Ask(
                    Request::EnterProject { project, client },
                    ServeCall::Entering { call, settings },
                )
            },
            Turn::Done(Err(m)) => Turn::Done(Err(m)),
        }
    }

    /// Goes on with the search for the line.
    fn resolved(
        t: Turn<DeclarationLine, Result<u32, LeanToolError>>,
        call: ToolCall,
        settings: Settings,
    ) -> (r: Turn<ServeCall, Result<ToolOutcome, String>>)
        ensures
            forall|d: Dialogue<Result<u32, ErrorView>>| #[trigger]
                begins(t, d) ==> begins(r, followed(d, line_found(call, settings@))),
    {
        match t {
            Turn::Ask(q, line) => {
                proof {
                    lemma_followed(q@, line.waiting(), line_found(call, settings@));
                }
                Turn::Ask(q, ServeCall::Resolving { line, call, settings })
            },
            Turn::Done(Ok(line)) => ServeCall::answered(answer(move_to(call, line), &settings)),
            Turn::Done(Err(error)) => Turn::Ask(Request::ErrorText { error }, ServeCall::Telling),
        }
    }
}

impl Call for ServeCall {
    fn accepts(&self, reply: &Reply) -> (r: bool) {
        match self {
            ServeCall::Finding { search, call, settings } => search.accepts(reply),
            ServeCall::Entering { call, settings } => true,
            ServeCall::Resolving { line, call, settings } => line.accepts(reply),
            ServeCall::Telling => true,
            ServeCall::Answering(c) => c.accepts(reply),
        }
    }

    fn resume(self, reply: Reply) -> (t: Turn<Self, Self::Out>) {
        match self {
            ServeCall::Finding { search, call, settings } => ServeCall::found(
                search.resume(reply),
                call,
                settings,
            ),
            ServeCall::Entering { call, settings } => match reply.done() {
                Ok(_) => match find_declaration(&call) {
                    Some((file, name)) => ServeCall::resolved(
                        resolve_declaration_line(file, name),
                        call,
                        settings,
                    ),
                    None => ServeCall::answered(answer(call, &settings)),
                },
                Err(m) => Turn::Done(Err(m)),
            },
            ServeCall::Resolving { line, call, settings } => ServeCall::resolved(
                line.resume(reply),
                call,
                settings,
            ),
            ServeCall::Telling => match reply.text() {
                Ok(words) => Turn::Done(Err(words)),
                Err(m) => Turn::Done(Err(m)),
            },
            ServeCall::Answering(c) => ServeCall::answered(c.resume(reply)),
        }
    }
}

/// Serves a call. `set` is the project that was set, if any.
pub fn serve(call: ToolCall, set: Option<&str>, settings: Settings) -> (t: Turn<
    ServeCall,
    Result<ToolOutcome, String>,
>)
    ensures
        begins(t, serve_dialogue(call, opt_str(set), settings@)),
{
    if find_place(&call) == Place::Anywhere {
        return ServeCall::answered(answer(call, &settings));
    }
    let search = resolve_project_path(set, find_file(&call));
    ServeCall::found(search, call, settings)
}

// ---------------------------------------------------------------------------
// Where a batch is served
// ---------------------------------------------------------------------------

/// Where a batch works: its project, if there is one, and whether that has a
/// language server.
#[derive(Debug, PartialEq, Eq)]
pub struct BatchPlace {
    pub project: Option<String>,
    pub has_client: bool,
}

/// What a [`BatchPlace`] says.
pub struct BatchPlaceView {
    pub project: Option<Seq<char>>,
    pub has_client: bool,
}

impl View for BatchPlace {
    type V = BatchPlaceView;

    open spec fn view(&self) -> BatchPlaceView {
        BatchPlaceView { project: opt_text(self.project), has_client: self.has_client }
    }
}

/// After the project of a batch was entered.
pub open spec fn batch_entered(project: Seq<char>) -> Waiting<BatchPlaceView> {
    |r: ReplyView|
        Dialogue::Finish(BatchPlaceView { project: Some(project), has_client: r is Done })
}

/// Goes on where the project of a batch is known.
pub open spec fn batch_found() -> spec_fn(ProjectSaid) -> Dialogue<BatchPlaceView> {
    |res: ProjectSaid|
        match res {
            Ok(project) => Dialogue::Ask(
                RequestView::EnterProject { project, client: true },
                batch_entered(project),
            ),
            Err(_) => Dialogue::Finish(BatchPlaceView { project: None, has_client: false }),
        }
}

/// How the place of a batch is found. A batch works without a project and without
/// a language server too.
pub open spec fn batch_place_dialogue(set: Option<Seq<char>>) -> Dialogue<BatchPlaceView> {
    followed(project_dialogue(set, None), batch_found())
}

/// The search for the place of a batch at work.
pub enum BatchPlaceCall {
    /// Waits for the project.
    Finding(ProjectCall),
    /// Waits until the project is entered.
    Entering { project: String },
}

impl Waits for BatchPlaceCall {
    type Out = BatchPlace;

    type Said = BatchPlaceView;

    open spec fn said(o: BatchPlace) -> BatchPlaceView {
        o@
    }

    open spec fn valid(self) -> bool {
        true
    }

    open spec fn waiting(self) -> Waiting<BatchPlaceView> {
        match self {
            BatchPlaceCall::Finding(search) => waiting_first(search.waiting(), batch_found()),
            BatchPlaceCall::Entering { project } => batch_entered(project@),
        }
    }

    open spec fn admits(self, r: ReplyView) -> bool {
        true
    }
}

impl BatchPlaceCall {
    /// Goes on with the search for the project.
    fn found(t: Turn<ProjectCall, Result<String, String>>) -> (r: Turn<BatchPlaceCall, BatchPlace>)
        ensures
            forall|d: Dialogue<ProjectSaid>| #[trigger]
                begins(t, d) ==> begins(r, followed(d, batch_found())),
    {
        match t {
            Turn::Ask(q, search) => {
                proof {
                    lemma_followed(q@, search.waiting(), batch_found());
                }
                Turn::Ask(q, BatchPlaceCall::Finding(search))
            },
            Turn::Done(Ok(project)) => Turn::Ask(
                Request::EnterProject { project: project.clone(), client: true },
                BatchPlaceCall::Entering { project },
            ),
            Turn::Done(Err(_)) => Turn::Done(BatchPlace { project: None, has_client: false }),
        }
    }
}

impl Call for BatchPlaceCall {
    fn accepts(&self, reply: &Reply) -> (r: bool) {
        true
    }

    fn resume(self, reply: Reply) -> (t: Turn<Self, Self::Out>) {
        match self {
            BatchPlaceCall::Finding(search) => BatchPlaceCall::found(search.resume(reply)),
            BatchPlaceCall::Entering { project } => {
                let has_client = match reply {
                    Reply::Done => true,
                    _ => false,
                };
                Turn::Done(BatchPlace { project: Some(project), has_client })
            },
        }
    }
}

/// Finds where a batch works. `set` is the project that was set, if any.
pub fn find_batch_place(set: Option<&str>) -> (t: Turn<BatchPlaceCall, BatchPlace>)
    ensures
        begins(t, batch_place_dialogue(opt_str(set))),
{
    BatchPlaceCall::found(resolve_project_path(set, None))
}

// ---------------------------------------------------------------------------
// Background tasks
// ---------------------------------------------------------------------------

/// What has become of a task, or what the user is told where it is not found.
pub type TaskSaid = Result<JsonView, Seq<char>>;

/// What the user is told of a task.
pub open spec fn task_words(task_id: Seq<char>, expired: bool) -> Seq<char> {
    "Task '"@ + task_id + if expired {
        "' not found or expired"@
    } else {
        "' not found"@
    }
}

/// What the user is told of a task.
fn tell_task(task_id: &str, expired: bool) -> (r: String)
    ensures
        r@ == task_words(task_id@, expired),
{
    if expired {
        glue3("Task '", task_id, "' not found or expired")
    } else {
        glue3("Task '", task_id, "' not found")
    }
}

/// After a task was looked up.
pub open spec fn task_looked_up(task_id: Seq<char>, expired: bool) -> Waiting<TaskSaid> {
    |r: ReplyView|
        Dialogue::Finish(
            match r {
                ReplyView::MaybeValue(Some(v)) => Ok(v),
                _ => Err(task_words(task_id, expired)),
            },
        )
}

/// After a task was cancelled, or was not found.
pub open spec fn task_cancelled(task_id: Seq<char>) -> Waiting<TaskSaid> {
    |r: ReplyView|
        if r == ReplyView::Flag(true) {
            Dialogue::Ask(
                RequestView::TaskSnapshot { task_id },
                task_looked_up(task_id, false),
            )
        } else {
            Dialogue::Finish(Err(task_words(task_id, false)))
        }
}

/// After old tasks were forgotten.
pub open spec fn tasks_forgotten(task_id: Seq<char>) -> Waiting<TaskSaid> {
    |r: ReplyView|
        Dialogue::Ask(RequestView::TaskSnapshot { task_id }, task_looked_up(task_id, true))
}

/// What has become of a task, which is cancelled first where that is asked for.
pub open spec fn task_dialogue(task_id: Seq<char>, cancel: Option<bool>) -> Dialogue<TaskSaid> {
    if cancel == Some(true) {
        Dialogue::Ask(RequestView::CancelTask { task_id }, task_cancelled(task_id))
    } else {
        Dialogue::Ask(RequestView::ForgetTasks, tasks_forgotten(task_id))
    }
}

/// A question about a task at work.
pub enum TaskCall {
    /// Waits until the task is cancelled.
    Cancelling { task_id: String },
    /// Waits until old tasks are forgotten.
    Forgetting { task_id: String },
    /// Waits for the task.
    Asking { task_id: String, expired: bool },
}

impl Waits for TaskCall {
    type Out = Result<Json, String>;

    type Said = TaskSaid;

    open spec fn said(o: Self::Out) -> TaskSaid {
        match o {
            Ok(v) => Ok(v@),
            Err(m) => Err(m@),
        }
    }

    open spec fn valid(self) -> bool {
        true
    }

    open spec fn waiting(self) -> Waiting<TaskSaid> {
        match self {
            TaskCall::Cancelling { task_id } => task_cancelled(task_id@),
            TaskCall::Forgetting { task_id } => tasks_forgotten(task_id@),
            TaskCall::Asking { task_id, expired } => task_looked_up(task_id@, expired),
        }
    }

    open spec fn admits(self, r: ReplyView) -> bool {
        true
    }
}

impl Call for TaskCall {
    fn accepts(&self, reply: &Reply) -> (r: bool) {
        true
    }

    fn resume(self, reply: Reply) -> (t: Turn<Self, Self::Out>) {
        match self {
            TaskCall::Cancelling { task_id } => match reply {
                Reply::Flag(true) => Turn::Ask(
                    Request::TaskSnapshot { task_id: task_id.clone() },
                    TaskCall::Asking { task_id, expired: false },
                ),
                _ => Turn::Done(Err(tell_task(task_id.as_str(), false))),
            },
            TaskCall::Forgetting { task_id } => Turn::Ask(
                Request::TaskSnapshot { task_id: task_id.clone() },
                TaskCall::Asking { task_id, expired: true },
            ),
            TaskCall::Asking { task_id, expired } => match reply {
                Reply::MaybeValue(Some(v)) => Turn::Done(Ok(v)),
                _ => Turn::Done(Err(tell_task(task_id.as_str(), expired))),
            },
        }
    }
}

/// What has become of a background task, which is cancelled first where that is
/// asked for.
pub fn task_result(params: TaskResultParams) -> (t: Turn<TaskCall, Result<Json, String>>)
    ensures
        begins(t, task_dialogue(params.task_id@, params.cancel)),
{
    let task_id = params.task_id;
    let cancel = match params.cancel {
        Some(c) => c,
        None => false,
    };
    if cancel {
        Turn::Ask(
            Request::CancelTask { task_id: task_id.clone() },
            TaskCall::Cancelling { task_id },
        )
    } else {
        Turn::Ask(Request::ForgetTasks, TaskCall::Forgetting { task_id })
    }
}

} // verus!
