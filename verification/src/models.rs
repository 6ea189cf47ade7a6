//! The plain data model the application moves around: projects, planning
//! items, the assistant's task/plan/session records, version-control
//! summaries, environment files, search results, issue links and settings.
//! Serialization to and from the UI lives in the host; the records here are
//! bare values the verified logic can speak about.

use crate::text::str_eq;
use vstd::prelude::*;
use vstd::string::*;

verus! {

// ─── Projects ────────────────────────────────────────────────────────────────

#[derive(Debug, Clone)]
pub struct Project {
    pub id: String,
    pub name: String,
    pub path: String,
    pub tags: Vec<String>,
    pub color: Option<String>,
    pub sort_order: i64,
    pub is_archived: bool,
    pub created_at: String,
    pub identity_key: Option<String>,
}

#[derive(Debug)]
pub struct CreateProjectInput {
    pub name: String,
    pub path: String,
    pub tags: Option<Vec<String>>,
    pub color: Option<String>,
    pub identity_key: Option<String>,
}

// ─── Planning items ──────────────────────────────────────────────────────────

#[derive(Debug, Clone, PartialEq, Eq, Structural)]
pub enum PlanningStatus {
    Backlog,
    Todo,
    InProgress,
    Done,
}

/// The storage label of a planning status.
pub open spec fn status_label(s: PlanningStatus) -> Seq<char> {
    match s {
        PlanningStatus::Backlog => "backlog"@,
        PlanningStatus::Todo => "todo"@,
        PlanningStatus::InProgress => "in_progress"@,
        PlanningStatus::Done => "done"@,
    }
}

/// The planning status a storage label denotes; anything unrecognized reads
/// as the backlog status.
pub open spec fn parse_status_spec(s: Seq<char>) -> PlanningStatus {
    if s == "todo"@ {
        PlanningStatus::Todo
    } else if s == "in_progress"@ {
        PlanningStatus::InProgress
    } else if s == "done"@ {
        PlanningStatus::Done
    } else {
        PlanningStatus::Backlog
    }
}

/// Reads a planning status from its storage label; unrecognized labels fall
/// back to the backlog status.
pub fn parse_status(s: &str) -> (r: PlanningStatus)
    ensures
        r == parse_status_spec(s@),
{
    if str_eq(s, "todo") {
        PlanningStatus::Todo
    } else if str_eq(s, "in_progress") {
        PlanningStatus::InProgress
    } else if str_eq(s, "done") {
        PlanningStatus::Done
    } else {
        PlanningStatus::Backlog
    }
}

impl PlanningStatus {
    /// The storage label of this status.
    pub fn label(&self) -> (r: String)
        ensures
            r@ == status_label(*self),
    {
        match self {
            PlanningStatus::Backlog => String::from_str("backlog"),
            PlanningStatus::Todo => String::from_str("todo"),
            PlanningStatus::InProgress => String::from_str("in_progress"),
            PlanningStatus::Done => String::from_str("done"),
        }
    }
}

/// Every planning status reads back from its own storage label.
pub proof fn lemma_status_label_roundtrip(s: PlanningStatus)
    ensures
        parse_status_spec(status_label(s)) == s,
{
    reveal_strlit("backlog");
    reveal_strlit("todo");
    reveal_strlit("in_progress");
    reveal_strlit("done");
    assert("backlog"@.len() == 7);
    assert("todo"@.len() == 4);
    assert("in_progress"@.len() == 11);
    assert("done"@.len() == 4);
    assert("done"@[0] == 'd' && "todo"@[0] == 't');
    assert("done"@ != "todo"@);
}

#[derive(Debug, Clone)]
pub struct PlanningItem {
    pub id: String,
    pub project_id: Option<String>,
    pub subject: String,
    pub description: Option<String>,
    pub status: PlanningStatus,
    pub priority: i64,
    pub sort_order: i64,
    pub created_at: String,
    pub updated_at: String,
}

#[derive(Debug)]
pub struct CreatePlanningItemInput {
    pub project_id: String,
    pub subject: String,
    pub description: Option<String>,
    pub status: String,
}

#[derive(Debug)]
pub struct UpdatePlanningItemInput {
    pub id: String,
    pub subject: String,
    pub description: Option<String>,
}

// ─── Assistant tasks, plans and sessions ─────────────────────────────────────

#[derive(Debug, Clone)]
pub struct AssistantTask {
    pub id: String,
    pub team_name: Option<String>,
    pub subject: String,
    pub description: Option<String>,
    pub status: String,
    pub owner: Option<String>,
    pub active_form: Option<String>,
    pub created_at: Option<String>,
    pub updated_at: Option<String>,
}

#[derive(Debug, Clone)]
pub struct AssistantTaskFile {
    pub team_id: String,
    pub tasks: Vec<AssistantTask>,
}

#[derive(Debug, Clone)]
pub struct AssistantPlan {
    pub id: String,
    pub filename: String,
    pub title: String,
    pub preview: String,
    pub content: String,
    pub modified_at: Option<String>,
}

#[derive(Debug, Clone)]
pub struct SessionMessage {
    pub uuid: String,
    pub role: String,
    pub content: String,
    pub timestamp: String,
}

#[derive(Debug, Clone)]
pub struct AssistantSession {
    pub id: String,
    pub project_key: String,
    pub cwd: Option<String>,
    pub message_count: usize,
    pub last_message_at: Option<String>,
    pub project_id: Option<String>,
}

// ─── Version control ─────────────────────────────────────────────────────────

#[derive(Debug, Clone)]
pub struct GitStatus {
    pub branch: String,
    pub ahead: usize,
    pub behind: usize,
    pub staged: Vec<GitFile>,
    pub unstaged: Vec<GitFile>,
    pub untracked: Vec<String>,
}

#[derive(Debug, Clone)]
pub struct GitFile {
    pub path: String,
    pub status: String,
}

#[derive(Debug, Clone)]
pub struct GitCommit {
    pub hash: String,
    pub short_hash: String,
    pub message: String,
    pub author: String,
    pub timestamp: String,
}

#[derive(Debug, Clone)]
pub struct GitBranch {
    pub name: String,
    pub is_head: bool,
    pub upstream: Option<String>,
}

// ─── Environment files ───────────────────────────────────────────────────────

#[derive(Debug, Clone)]
pub struct EnvFile {
    pub filename: String,
    pub path: String,
    pub var_count: usize,
}

#[derive(Debug, Clone)]
pub struct EnvVar {
    pub key: String,
    pub value: String,
    pub masked: bool,
}

// ─── Search results ──────────────────────────────────────────────────────────

#[derive(Debug, Clone)]
pub struct SearchProjectResult {
    pub id: String,
    pub name: String,
    pub path: String,
    pub tags: Vec<String>,
    pub color: Option<String>,
}

#[derive(Debug, Clone)]
pub struct SearchPlanningItemResult {
    pub id: String,
    pub project_id: Option<String>,
    pub project_name: String,
    pub subject: String,
    pub description: Option<String>,
    pub status: String,
}

#[derive(Debug, Clone)]
pub struct SearchPlanResult {
    pub id: String,
    pub filename: String,
    pub title: String,
    pub preview: String,
    pub modified_at: Option<String>,
}

#[derive(Debug, Clone)]
pub struct SearchTaskResult {
    pub id: String,
    pub team_id: String,
    pub team_name: Option<String>,
    pub subject: String,
    pub description: Option<String>,
    pub status: String,
}

#[derive(Debug, Clone)]
pub struct SearchResults {
    pub projects: Vec<SearchProjectResult>,
    pub planning_items: Vec<SearchPlanningItemResult>,
    pub plans: Vec<SearchPlanResult>,
    pub tasks: Vec<SearchTaskResult>,
}

// ─── Issue links ─────────────────────────────────────────────────────────────

#[derive(Debug, Clone)]
pub struct TaskGithubLink {
    pub task_id: String,
    pub team_id: String,
    pub github_issue_url: String,
    pub github_issue_number: Option<i64>,
    pub github_repo: Option<String>,
    pub created_at: String,
    /// Cached issue state: `"open"` or `"closed"`; `None` = not yet fetched.
    pub github_issue_state: Option<String>,
    /// When `github_issue_state` was last refreshed.
    pub state_updated_at: Option<String>,
}

#[derive(Debug)]
pub struct UpsertTaskGithubLinkInput {
    pub task_id: String,
    pub team_id: String,
    pub github_issue_url: String,
    pub github_issue_number: Option<i64>,
    pub github_repo: Option<String>,
}

#[derive(Debug, Clone)]
pub struct CreateGithubIssueOutput {
    pub number: i64,
    pub url: String,
}

// ─── Scan reconciliation ─────────────────────────────────────────────────────

#[derive(Debug, Clone)]
pub struct SyncResult {
    /// Projects whose on-disk path differed from the stored record.
    pub updated: Vec<Project>,
    /// Brand-new projects discovered by the scan.
    pub added: Vec<Project>,
    /// Projects that matched exactly and needed no change.
    pub unchanged_count: usize,
    /// Stored records archived because their path no longer exists on disk.
    pub archived_count: usize,
}

// ─── Updates ─────────────────────────────────────────────────────────────────

#[derive(Debug, Clone)]
pub struct UpdateInfo {
    pub available: bool,
    pub version: Option<String>,
    pub body: Option<String>,
}

// ─── Settings ────────────────────────────────────────────────────────────────

#[derive(Debug, Clone)]
pub struct AppSettings {
    pub scan_path: Option<String>,
    pub theme: String,
    pub terminal: String,
    pub onboarding_completed: bool,
    /// When `true`, completing a task with a linked issue prompts the user
    /// to close the issue.
    pub github_close_prompt: bool,
}

impl Default for AppSettings {
    /// The settings a fresh installation starts from. The default scan path
    /// is a directory under the user's home; the host fills it in, since
    /// only it can ask the system where home is.
    fn default() -> (r: AppSettings)
        ensures
            r.scan_path is None,
            r.theme@ == "system"@,
            r.terminal@ == "auto"@,
            !r.onboarding_completed,
            r.github_close_prompt,
    {
        AppSettings {
            scan_path: None,
            theme: String::from_str("system"),
            terminal: String::from_str("auto"),
            onboarding_completed: false,
            github_close_prompt: true,
        }
    }
}

} // verus!
