//! The rows of the record.
use crate::text::make::{copy_opt, copy_strings, strings};
use crate::text::scan::opt_string;
use crate::state::build_logs::{copy_summary, opt_summary, BuildLogSummary, SummaryView};
use vstd::prelude::*;

verus! {

/// A directory in which one agent works on a branch of its own.
#[derive(Debug)]
pub struct Workspace {
    pub reference: String,
    pub name: String,
    pub path: String,
    pub branch: String,
}

/// The contents of a [`Workspace`].
pub struct WorkspaceView {
    pub reference: Seq<char>,
    pub name: Seq<char>,
    pub path: Seq<char>,
    pub branch: Seq<char>,
}

impl View for Workspace {
    type V = WorkspaceView;

    open spec fn view(&self) -> WorkspaceView {
        WorkspaceView {
            reference: self.reference@,
            name: self.name@,
            path: self.path@,
            branch: self.branch@,
        }
    }
}

impl Workspace {
    /// A copy of the workspace.
    pub fn copy(&self) -> (r: Self)
        ensures
            r@ == self@,
    {
        Workspace {
            reference: self.reference.clone(),
            name: self.name.clone(),
            path: self.path.clone(),
            branch: self.branch.clone(),
        }
    }
}

/// A workspace with the times of its life.
#[derive(Debug)]
pub struct WorkspaceRow {
    pub workspace: Workspace,
    pub created_at: i64,
    pub last_active: i64,
    pub deleted_at: Option<i64>,
}

/// The contents of a [`WorkspaceRow`].
pub struct WorkspaceRowView {
    pub workspace: WorkspaceView,
    pub created_at: i64,
    pub last_active: i64,
    pub deleted_at: Option<i64>,
}

impl View for WorkspaceRow {
    type V = WorkspaceRowView;

    open spec fn view(&self) -> WorkspaceRowView {
        WorkspaceRowView {
            workspace: self.workspace@,
            created_at: self.created_at,
            last_active: self.last_active,
            deleted_at: self.deleted_at,
        }
    }
}

/// A passed check of one target.
#[derive(Debug)]
pub struct CheckRecord {
    pub reference: String,
    pub workspace_ref: String,
    pub target: String,
    pub fingerprint: String,
    pub dependencies: Vec<String>,
    pub source_version: u64,
    pub created_at: i64,
}

/// The contents of a [`CheckRecord`].
pub struct CheckRecordView {
    pub reference: Seq<char>,
    pub workspace_ref: Seq<char>,
    pub target: Seq<char>,
    pub fingerprint: Seq<char>,
    pub dependencies: Seq<Seq<char>>,
    pub source_version: u64,
    pub created_at: i64,
}

impl View for CheckRecord {
    type V = CheckRecordView;

    open spec fn view(&self) -> CheckRecordView {
        CheckRecordView {
            reference: self.reference@,
            workspace_ref: self.workspace_ref@,
            target: self.target@,
            fingerprint: self.fingerprint@,
            dependencies: strings(self.dependencies@),
            source_version: self.source_version,
            created_at: self.created_at,
        }
    }
}

impl CheckRecord {
    /// A copy of the record.
    pub fn copy(&self) -> (r: Self)
        ensures
            r@ == self@,
    {
        CheckRecord {
            reference: self.reference.clone(),
            workspace_ref: self.workspace_ref.clone(),
            target: self.target.clone(),
            fingerprint: self.fingerprint.clone(),
            dependencies: copy_strings(&self.dependencies),
            source_version: self.source_version,
            created_at: self.created_at,
        }
    }
}

/// A synchronisation of a workspace with the main branch.
#[derive(Debug)]
pub struct SyncRecord {
    pub reference: String,
    pub workspace_ref: String,
    pub status: String,
    pub detail: String,
    pub created_at: i64,
}

/// The contents of a [`SyncRecord`].
pub struct SyncRecordView {
    pub reference: Seq<char>,
    pub workspace_ref: Seq<char>,
    pub status: Seq<char>,
    pub detail: Seq<char>,
    pub created_at: i64,
}

impl View for SyncRecord {
    type V = SyncRecordView;

    open spec fn view(&self) -> SyncRecordView {
        SyncRecordView {
            reference: self.reference@,
            workspace_ref: self.workspace_ref@,
            status: self.status@,
            detail: self.detail@,
            created_at: self.created_at,
        }
    }
}

/// A submitted revision and what became of its validation.
#[derive(Debug)]
pub struct Submission {
    pub reference: String,
    pub workspace_ref: String,
    pub workspace_commit: String,
    pub main_commit: String,
    pub base_commit: String,
    pub checks: Vec<String>,
    pub validation_status: String,
    pub validation_detail: Option<String>,
    pub validated_by: Option<String>,
    pub validation_duration_ms: Option<u64>,
    pub build_output: Option<String>,
    pub build_summary: Option<BuildLogSummary>,
    pub axioms: Vec<String>,
    pub sorries: Vec<String>,
    pub created_at: i64,
}

/// The contents of a [`Submission`].
pub struct SubmissionView {
    pub reference: Seq<char>,
    pub workspace_ref: Seq<char>,
    pub workspace_commit: Seq<char>,
    pub main_commit: Seq<char>,
    pub base_commit: Seq<char>,
    pub checks: Seq<Seq<char>>,
    pub validation_status: Seq<char>,
    pub validation_detail: Option<Seq<char>>,
    pub validated_by: Option<Seq<char>>,
    pub validation_duration_ms: Option<u64>,
    pub build_output: Option<Seq<char>>,
    pub build_summary: Option<SummaryView>,
    pub axioms: Seq<Seq<char>>,
    pub sorries: Seq<Seq<char>>,
    pub created_at: i64,
}

impl View for Submission {
    type V = SubmissionView;

    open spec fn view(&self) -> SubmissionView {
        SubmissionView {
            reference: self.reference@,
            workspace_ref: self.workspace_ref@,
            workspace_commit: self.workspace_commit@,
            main_commit: self.main_commit@,
            base_commit: self.base_commit@,
            checks: strings(self.checks@),
            validation_status: self.validation_status@,
            validation_detail: opt_string(self.validation_detail),
            validated_by: opt_string(self.validated_by),
            validation_duration_ms: self.validation_duration_ms,
            build_output: opt_string(self.build_output),
            build_summary: opt_summary(self.build_summary),
            axioms: strings(self.axioms@),
            sorries: strings(self.sorries@),
            created_at: self.created_at,
        }
    }
}

impl Submission {
    /// A copy of the submission.
    pub fn copy(&self) -> (r: Self)
        ensures
            r@ == self@,
    {
        Submission {
            reference: self.reference.clone(),
            workspace_ref: self.workspace_ref.clone(),
            workspace_commit: self.workspace_commit.clone(),
            main_commit: self.main_commit.clone(),
            base_commit: self.base_commit.clone(),
            checks: copy_strings(&self.checks),
            validation_status: self.validation_status.clone(),
            validation_detail: copy_opt(&self.validation_detail),
            validated_by: copy_opt(&self.validated_by),
            validation_duration_ms: self.validation_duration_ms,
            build_output: copy_opt(&self.build_output),
            build_summary: copy_summary(&self.build_summary),
            axioms: copy_strings(&self.axioms),
            sorries: copy_strings(&self.sorries),
            created_at: self.created_at,
        }
    }
}

} // verus!
