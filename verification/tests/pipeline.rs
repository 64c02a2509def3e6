use completed_tasks::error::PipelineError;
use completed_tasks::model::{Entry, Task, Timestamp};
use completed_tasks::pipeline::{Action, Pipeline, Reply, Stage};
use completed_tasks::request::Request;

fn entry(gid: &str) -> Entry {
    Entry { gid: gid.to_string() }
}

fn done(name: &str, secs: i64) -> Task {
    Task {
        completed: true,
        completed_at: Some(Timestamp { secs, nanos: 0 }),
        name: name.to_string(),
    }
}

fn open(name: &str) -> Task {
    Task { completed: false, completed_at: None, name: name.to_string() }
}

fn started() -> Pipeline {
    let (pipeline, action) = Pipeline::start(Some("secret".to_string()));
    assert_eq!(action, Action::Fetch(Request::Workspaces));
    pipeline
}

fn awaiting_tasks(projects: &[&str]) -> Pipeline {
    let mut pipeline = started();
    pipeline.step(Reply::Entries(vec![entry("w")]));
    pipeline.step(Reply::Entries(projects.iter().map(|p| entry(p)).collect()));
    pipeline
}

#[test]
fn a_run_begins_by_asking_for_the_workspaces() {
    let (pipeline, action) = Pipeline::start(Some("secret".to_string()));
    assert_eq!(action, Action::Fetch(Request::Workspaces));
    assert_eq!(pipeline.stage(), Stage::AwaitingWorkspaces);
    assert_eq!(pipeline.authorization(), "Bearer secret");
}

#[test]
fn a_run_without_a_token_fails_before_any_request() {
    let (mut pipeline, action) = Pipeline::start(None);
    assert_eq!(action, Action::Fail(PipelineError::MissingToken));
    assert_eq!(pipeline.stage(), Stage::Failed);
    assert_eq!(
        pipeline.step(Reply::Entries(vec![entry("w")])),
        Action::Fail(PipelineError::UnexpectedReply)
    );
    assert_eq!(pipeline.stage(), Stage::Failed);
}

#[test]
fn the_first_workspace_is_the_one_whose_projects_are_listed() {
    let mut pipeline = started();
    let action = pipeline.step(Reply::Entries(vec![entry("11"), entry("22"), entry("33")]));
    assert_eq!(action, Action::Fetch(Request::Projects { workspace_gid: "11".to_string() }));
    assert_eq!(pipeline.stage(), Stage::AwaitingProjects);
}

#[test]
fn an_empty_workspace_listing_ends_the_run() {
    let mut pipeline = started();
    let action = pipeline.step(Reply::Entries(Vec::new()));
    assert_eq!(action, Action::Fail(PipelineError::NoWorkspace));
    assert_eq!(pipeline.stage(), Stage::Failed);
    assert_eq!(
        pipeline.step(Reply::Entries(vec![entry("inbox")])),
        Action::Fail(PipelineError::UnexpectedReply)
    );
}

#[test]
fn a_run_makes_two_requests_and_one_more_for_each_project() {
    let mut pipeline = started();
    let mut requests = vec![Request::Workspaces];
    let mut action = pipeline.step(Reply::Entries(vec![entry("w1"), entry("w2")]));
    let mut replies = vec![
        Reply::Tasks(vec![done("c", 30)]),
        Reply::Tasks(vec![]),
        Reply::Tasks(vec![done("a", 10), open("x"), done("b", 20)]),
        Reply::Entries(vec![entry("inbox"), entry("roadmap"), entry("backlog")]),
    ];
    let lines = loop {
        match action {
            Action::Fetch(request) => {
                requests.push(request);
                action = pipeline.step(replies.pop().unwrap());
            }
            Action::Print(lines) => break lines,
            Action::Fail(error) => panic!("the run failed: {:?}", error),
        }
    };
    assert_eq!(
        requests,
        vec![
            Request::Workspaces,
            Request::Projects { workspace_gid: "w1".to_string() },
            Request::Tasks { project_gid: "inbox".to_string() },
            Request::Tasks { project_gid: "roadmap".to_string() },
            Request::Tasks { project_gid: "backlog".to_string() },
        ]
    );
    assert!(replies.is_empty());
    assert_eq!(lines, vec!["- a", "- b", "- c"]);
    assert_eq!(pipeline.stage(), Stage::Finished);
}

#[test]
fn a_workspace_without_projects_gives_an_empty_digest() {
    let mut pipeline = started();
    pipeline.step(Reply::Entries(vec![entry("w")]));
    let action = pipeline.step(Reply::Entries(Vec::new()));
    assert_eq!(action, Action::Print(Vec::new()));
    assert_eq!(pipeline.stage(), Stage::Finished);
}

#[test]
fn incomplete_tasks_do_not_reach_the_digest() {
    let mut pipeline = awaiting_tasks(&["inbox", "roadmap"]);
    assert_eq!(pipeline.stage(), Stage::AwaitingTasks);
    let action = pipeline.step(Reply::Tasks(vec![open("draft"), done("sent", 5), open("idea")]));
    assert_eq!(action, Action::Fetch(Request::Tasks { project_gid: "roadmap".to_string() }));
    let action = pipeline.step(Reply::Tasks(vec![open("later")]));
    assert_eq!(action, Action::Print(vec!["- sent".to_string()]));
}

#[test]
fn the_digest_is_ordered_across_projects() {
    let mut pipeline = awaiting_tasks(&["inbox", "roadmap"]);
    pipeline.step(Reply::Tasks(vec![done("late", 900), done("early", 100)]));
    let mut unknown = done("unknown", 0);
    unknown.completed_at = None;
    let action = pipeline.step(Reply::Tasks(vec![done("middle", 500), unknown, done("tie", 100)]));
    assert_eq!(
        action,
        Action::Print(vec![
            "- unknown".to_string(),
            "- early".to_string(),
            "- tie".to_string(),
            "- middle".to_string(),
            "- late".to_string(),
        ])
    );
}

#[test]
fn a_failed_request_ends_the_run_at_any_stage() {
    let mut pipeline = started();
    assert_eq!(pipeline.step(Reply::Failed), Action::Fail(PipelineError::RequestFailed));
    assert_eq!(pipeline.stage(), Stage::Failed);

    let mut pipeline = started();
    pipeline.step(Reply::Entries(vec![entry("w")]));
    assert_eq!(pipeline.step(Reply::Failed), Action::Fail(PipelineError::RequestFailed));
    assert_eq!(pipeline.stage(), Stage::Failed);

    let mut pipeline = awaiting_tasks(&["inbox", "roadmap"]);
    pipeline.step(Reply::Tasks(vec![done("kept so far", 1)]));
    assert_eq!(pipeline.step(Reply::Failed), Action::Fail(PipelineError::RequestFailed));
    assert_eq!(pipeline.stage(), Stage::Failed);
    assert_eq!(
        pipeline.step(Reply::Tasks(Vec::new())),
        Action::Fail(PipelineError::UnexpectedReply)
    );
}

#[test]
fn a_reply_of_the_wrong_kind_ends_the_run() {
    let mut pipeline = started();
    assert_eq!(
        pipeline.step(Reply::Tasks(vec![done("a", 1)])),
        Action::Fail(PipelineError::UnexpectedReply)
    );
    assert_eq!(pipeline.stage(), Stage::Failed);

    let mut pipeline = started();
    pipeline.step(Reply::Entries(vec![entry("w")]));
    assert_eq!(
        pipeline.step(Reply::Tasks(Vec::new())),
        Action::Fail(PipelineError::UnexpectedReply)
    );
    assert_eq!(pipeline.stage(), Stage::Failed);

    let mut pipeline = awaiting_tasks(&["inbox"]);
    assert_eq!(
        pipeline.step(Reply::Entries(vec![entry("other")])),
        Action::Fail(PipelineError::UnexpectedReply)
    );
    assert_eq!(pipeline.stage(), Stage::Failed);
}

#[test]
fn a_finished_run_stays_finished() {
    let mut pipeline = awaiting_tasks(&["inbox"]);
    assert_eq!(
        pipeline.step(Reply::Tasks(vec![done("a", 1)])),
        Action::Print(vec!["- a".to_string()])
    );
    assert_eq!(pipeline.stage(), Stage::Finished);
    assert_eq!(
        pipeline.step(Reply::Tasks(vec![done("b", 2)])),
        Action::Fail(PipelineError::UnexpectedReply)
    );
    assert_eq!(pipeline.step(Reply::Failed), Action::Fail(PipelineError::UnexpectedReply));
    assert_eq!(pipeline.stage(), Stage::Finished);
}

#[test]
fn every_request_carries_the_same_authorization() {
    let mut pipeline = started();
    assert_eq!(pipeline.authorization(), "Bearer secret");
    pipeline.step(Reply::Entries(vec![entry("w")]));
    assert_eq!(pipeline.authorization(), "Bearer secret");
    pipeline.step(Reply::Entries(vec![entry("inbox")]));
    assert_eq!(pipeline.authorization(), "Bearer secret");
    pipeline.step(Reply::Tasks(Vec::new()));
    assert_eq!(pipeline.authorization(), "Bearer secret");
}
