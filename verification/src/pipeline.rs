//! The run as a state machine. The pipeline names the next request; the
//! caller performs it and hands the parsed reply back; the pipeline answers
//! with the request after that, with the finished digest, or with the reason
//! it stopped. The order is fixed: the workspaces, the projects of the first
//! workspace, then the tasks of each project in turn.

use crate::credentials::{bearer_header_value, bearer_text, get_access_token};
use crate::digest::{
    bullet_lines, bullet_texts, completed_of, retain_completed, sort_by_completion,
    sorted_by_completion,
};
use crate::error::PipelineError;
use crate::model::{entry_views, task_views, Entry, Task, TaskView};
use crate::request::{Request, RequestView};
use vstd::prelude::*;

verus! {

/// How far a run has come.
#[derive(Debug, Clone, Copy, PartialEq, Eq, Structural)]
pub enum Stage {
    /// The workspace listing was asked for.
    AwaitingWorkspaces,
    /// The project listing was asked for.
    AwaitingProjects,
    /// The task listing of one project was asked for.
    AwaitingTasks,
    /// The digest was handed out.
    Finished,
    /// The run stopped with an error.
    Failed,
}

/// What came back for a request.
#[derive(Debug, Clone, PartialEq, Eq)]
pub enum Reply {
    /// A listing of workspaces or of projects.
    Entries(Vec<Entry>),
    /// A listing of tasks.
    Tasks(Vec<Task>),
    /// The request failed, or its body could not be read.
    Failed,
}

pub enum ReplyView {
    Entries(Seq<Seq<char>>),
    Tasks(Seq<TaskView>),
    Failed,
}

impl View for Reply {
    type V = ReplyView;

    open spec fn view(&self) -> ReplyView {
        match self {
            Reply::Entries(entries) => ReplyView::Entries(entry_views(entries@)),
            Reply::Tasks(tasks) => ReplyView::Tasks(task_views(tasks@)),
            Reply::Failed => ReplyView::Failed,
        }
    }
}

/// What the caller is to do next.
#[derive(Debug, Clone, PartialEq, Eq)]
pub enum Action {
    /// Perform this request and hand its reply to `step`.
    Fetch(Request),
    /// The run is over: print these lines, one per line.
    Print(Vec<String>),
    /// The run is over without a digest.
    Fail(PipelineError),
}

#[verifier::ext_equal]
pub enum ActionView {
    Fetch(RequestView),
    Print(Seq<Seq<char>>),
    Fail(PipelineError),
}

impl View for Action {
    type V = ActionView;

    open spec fn view(&self) -> ActionView {
        match self {
            Action::Fetch(request) => ActionView::Fetch(request@),
            Action::Print(lines) => ActionView::Print(lines.deep_view()),
            Action::Fail(error) => ActionView::Fail(*error),
        }
    }
}

/// A run in progress.
#[derive(Debug)]
pub struct Pipeline {
    token: String,
    stage: Stage,
    projects: Vec<Entry>,
    cursor: usize,
    kept: Vec<Task>,
}

/// What a run is to the contracts.
#[verifier::ext_equal]
pub struct PipelineView {
    /// The access token.
    pub token: Seq<char>,
    pub stage: Stage,
    /// The projects whose tasks have not been asked for yet, in the order in
    /// which they will be.
    pub pending: Seq<Seq<char>>,
    /// The completed tasks gathered so far, in the order they came in.
    pub kept: Seq<TaskView>,
}

impl View for Pipeline {
    type V = PipelineView;

    closed spec fn view(&self) -> PipelineView {
        PipelineView {
            token: self.token@,
            stage: self.stage,
            pending: if self.cursor <= self.projects.len() {
                entry_views(self.projects@).skip(self.cursor as int)
            } else {
                Seq::empty()
            },
            kept: task_views(self.kept@),
        }
    }
}

/// A run as it begins: with a token it asks for the workspaces, without one
/// it has failed before asking for anything.
pub open spec fn initial(found: Option<Seq<char>>) -> (PipelineView, ActionView) {
    match found {
        Some(token) => (
            PipelineView {
                token,
                stage: Stage::AwaitingWorkspaces,
                pending: Seq::empty(),
                kept: Seq::empty(),
            },
            ActionView::Fetch(RequestView::Workspaces),
        ),
        None => (
            PipelineView {
                token: Seq::empty(),
                stage: Stage::Failed,
                pending: Seq::empty(),
                kept: Seq::empty(),
            },
            ActionView::Fail(PipelineError::MissingToken),
        ),
    }
}

/// `state` at rest in `stage`, with nothing pending and nothing kept.
pub open spec fn halted(state: PipelineView, stage: Stage) -> PipelineView {
    PipelineView { token: state.token, stage, pending: Seq::empty(), kept: Seq::empty() }
}

/// Moves on to the next pending project, or, when none is left, ends the
/// run with the digest of what was kept.
pub open spec fn advance(state: PipelineView) -> (PipelineView, ActionView) {
    if state.pending.len() == 0 {
        (
            halted(state, Stage::Finished),
            ActionView::Print(bullet_texts(sorted_by_completion(state.kept))),
        )
    } else {
        (
            PipelineView {
                token: state.token,
                stage: Stage::AwaitingTasks,
                pending: state.pending.drop_first(),
                kept: state.kept,
            },
            ActionView::Fetch(RequestView::Tasks { project_gid: state.pending.first() }),
        )
    }
}

/// The transition: the state after `reply` and the action that answers it.
///
/// A run that is over stays as it is and answers every reply with
/// `UnexpectedReply`. A failed request, or a reply of the wrong kind, ends
/// the run and discards what was gathered. An empty workspace listing ends
/// it with `NoWorkspace`; otherwise the first workspace is the one whose
/// projects are listed. Of each task listing the completed tasks are kept.
pub open spec fn next(state: PipelineView, reply: ReplyView) -> (PipelineView, ActionView) {
    match state.stage {
        Stage::Finished | Stage::Failed => (
            state,
            ActionView::Fail(PipelineError::UnexpectedReply),
        ),
        Stage::AwaitingWorkspaces => match reply {
            ReplyView::Entries(workspaces) => if workspaces.len() == 0 {
                (halted(state, Stage::Failed), ActionView::Fail(PipelineError::NoWorkspace))
            } else {
                (
                    PipelineView {
                        token: state.token,
                        stage: Stage::AwaitingProjects,
                        pending: state.pending,
                        kept: state.kept,
                    },
                    ActionView::Fetch(
                        RequestView::Projects { workspace_gid: workspaces.first() },
                    ),
                )
            },
            ReplyView::Tasks(_) => (
                halted(state, Stage::Failed),
                ActionView::Fail(PipelineError::UnexpectedReply),
            ),
            ReplyView::Failed => (
                halted(state, Stage::Failed),
                ActionView::Fail(PipelineError::RequestFailed),
            ),
        },
        Stage::AwaitingProjects => match reply {
            ReplyView::Entries(projects) => advance(
                PipelineView {
                    token: state.token,
                    stage: state.stage,
                    pending: projects,
                    kept: state.kept,
                },
            ),
            ReplyView::Tasks(_) => (
                halted(state, Stage::Failed),
                ActionView::Fail(PipelineError::UnexpectedReply),
            ),
            ReplyView::Failed => (
                halted(state, Stage::Failed),
                ActionView::Fail(PipelineError::RequestFailed),
            ),
        },
        Stage::AwaitingTasks => match reply {
            ReplyView::Tasks(tasks) => advance(
                PipelineView {
                    token: state.token,
                    stage: state.stage,
                    pending: state.pending,
                    kept: state.kept + completed_of(tasks),
                },
            ),
            ReplyView::Entries(_) => (
                halted(state, Stage::Failed),
                ActionView::Fail(PipelineError::UnexpectedReply),
            ),
            ReplyView::Failed => (
                halted(state, Stage::Failed),
                ActionView::Fail(PipelineError::RequestFailed),
            ),
        },
    }
}

impl Pipeline {
    /// Begins a run with the outcome of looking the access token up.
    pub fn start(found: Option<String>) -> (begun: (Pipeline, Action))
        ensures
            (begun.0@, begun.1@) == initial(
                match found {
                    Some(token) => Some(token@),
                    None => None,
                },
            ),
    {
        match get_access_token(found) {
            Ok(token) => (
                Pipeline {
                    token,
                    stage: Stage::AwaitingWorkspaces,
                    projects: Vec::new(),
                    cursor: 0,
                    kept: Vec::new(),
                },
                Action::Fetch(Request::Workspaces),
            ),
            Err(error) => (
                Pipeline {
                    token: String::new(),
                    stage: Stage::Failed,
                    projects: Vec::new(),
                    cursor: 0,
                    kept: Vec::new(),
                },
                Action::Fail(error),
            ),
        }
    }

    /// How far the run has come.
    pub fn stage(&self) -> (stage: Stage)
        ensures
            stage == self@.stage,
    {
        self.stage
    }

    /// The value of the authorization header that every request carries.
    pub fn authorization(&self) -> (value: String)
        ensures
            value@ == bearer_text(self@.token),
    {
        bearer_header_value(self.token.as_str())
    }

    /// Takes the reply to the request that was asked for last and answers
    /// with what to do next.
    pub fn step(&mut self, reply: Reply) -> (action: Action)
        ensures
            (final(self)@, action@) == next(old(self)@, reply@),
    {
        match self.stage {
            Stage::Finished | Stage::Failed => Action::Fail(PipelineError::UnexpectedReply),
            Stage::AwaitingWorkspaces => match reply {
                Reply::Entries(workspaces) => {
                    if workspaces.len() == 0 {
                        self.halt(Stage::Failed);
                        Action::Fail(PipelineError::NoWorkspace)
                    } else {
                        self.stage = Stage::AwaitingProjects;
                        Action::Fetch(
                            Request::Projects { workspace_gid: workspaces[0].gid.clone() },
                        )
                    }
                },
                Reply::Tasks(_) => {
                    self.halt(Stage::Failed);
                    Action::Fail(PipelineError::UnexpectedReply)
                },
                Reply::Failed => {
                    self.halt(Stage::Failed);
                    Action::Fail(PipelineError::RequestFailed)
                },
            },
            Stage::AwaitingProjects => match reply {
                Reply::Entries(projects) => {
                    proof {
                        assert(entry_views(projects@).skip(0) =~= entry_views(projects@));
                    }
                    self.projects = projects;
                    self.cursor = 0;
                    self.advance()
                },
                Reply::Tasks(_) => {
                    self.halt(Stage::Failed);
                    Action::Fail(PipelineError::UnexpectedReply)
                },
                Reply::Failed => {
                    self.halt(Stage::Failed);
                    Action::Fail(PipelineError::RequestFailed)
                },
            },
            Stage::AwaitingTasks => match reply {
                Reply::Tasks(tasks) => {
                    let mut completed = retain_completed(tasks);
                    proof {
                        assert(task_views(self.kept@ + completed@) =~= task_views(self.kept@)
                            + task_views(completed@));
                    }
                    self.kept.append(&mut completed);
                    self.advance()
                },
                Reply::Entries(_) => {
                    self.halt(Stage::Failed);
                    Action::Fail(PipelineError::UnexpectedReply)
                },
                Reply::Failed => {
                    self.halt(Stage::Failed);
                    Action::Fail(PipelineError::RequestFailed)
                },
            },
        }
    }

    fn halt(&mut self, stage: Stage)
        ensures
            final(self)@ == halted(old(self)@, stage),
    {
        self.stage = stage;
        self.projects = Vec::new();
        self.cursor = 0;
        self.kept = Vec::new();
        proof {
            assert(entry_views(self.projects@).skip(0) =~= Seq::<Seq<char>>::empty());
            assert(task_views(self.kept@) =~= Seq::<TaskView>::empty());
        }
    }

    fn advance(&mut self) -> (action: Action)
        ensures
            (final(self)@, action@) == advance(old(self)@),
    {
        if self.cursor < self.projects.len() {
            let ghost pending = old(self)@.pending;
            let project_gid = self.projects[self.cursor].gid.clone();
            self.cursor = self.cursor + 1;
            self.stage = Stage::AwaitingTasks;
            proof {
                assert(self@.pending =~= pending.drop_first());
                assert(project_gid@ == pending.first());
            }
            Action::Fetch(Request::Tasks { project_gid })
        } else {
            sort_by_completion(&mut self.kept);
            let lines = bullet_lines(&self.kept);
            self.halt(Stage::Finished);
            Action::Print(lines)
        }
    }
}

} // verus!
