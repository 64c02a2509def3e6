//! The three requests of a run and the addresses they go to.

use crate::clock::{completed_since, completed_since_text, utc_now};
use crate::error::PipelineError;
use crate::model::Timestamp;
use vstd::prelude::*;
use vstd::string::StringExecFns;

verus! {

/// One request to the service. Each is a GET that carries the
/// authorization header.
#[derive(Debug, Clone, PartialEq, Eq)]
pub enum Request {
    /// List the workspaces of the account.
    Workspaces,
    /// List the projects of one workspace.
    Projects { workspace_gid: String },
    /// List the tasks of one project that were completed within the last day.
    Tasks { project_gid: String },
}

/// A request with its identifier as text.
pub enum RequestView {
    Workspaces,
    Projects { workspace_gid: Seq<char> },
    Tasks { project_gid: Seq<char> },
}

impl View for Request {
    type V = RequestView;

    open spec fn view(&self) -> RequestView {
        match self {
            Request::Workspaces => RequestView::Workspaces,
            Request::Projects { workspace_gid } => RequestView::Projects {
                workspace_gid: workspace_gid@,
            },
            Request::Tasks { project_gid } => RequestView::Tasks { project_gid: project_gid@ },
        }
    }
}

/// The address of the workspace listing.
pub open spec fn workspaces_url_text() -> Seq<char> {
    "https://app.asana.com/api/1.0/workspaces"@
}

/// The address of the project listing of a workspace. The identifier is put
/// in as it is.
pub open spec fn projects_url_text(workspace_gid: Seq<char>) -> Seq<char> {
    "https://app.asana.com/api/1.0/workspaces/"@ + workspace_gid + "/projects"@
}

/// The address of the task listing of a project: the three fields that a
/// task is read from, and the lower bound on the completion time.
pub open spec fn tasks_url_text(project_gid: Seq<char>, completed_since: Seq<char>) -> Seq<char> {
    "https://app.asana.com/api/1.0/projects/"@ + project_gid
        + "/tasks?opt_fields=name,completed,completed_at&completed_since="@ + completed_since
}

pub fn workspaces_url() -> (url: String)
    ensures
        url@ == workspaces_url_text(),
{
    String::from_str("https://app.asana.com/api/1.0/workspaces")
}

pub fn projects_url(workspace_gid: &str) -> (url: String)
    ensures
        url@ == projects_url_text(workspace_gid@),
{
    let mut url = String::from_str("https://app.asana.com/api/1.0/workspaces/");
    url.append(workspace_gid);
    url.append("/projects");
    url
}

pub fn tasks_url(project_gid: &str, completed_since: &str) -> (url: String)
    ensures
        url@ == tasks_url_text(project_gid@, completed_since@),
{
    let mut url = String::from_str("https://app.asana.com/api/1.0/projects/");
    url.append(project_gid);
    url.append("/tasks?opt_fields=name,completed,completed_at&completed_since=");
    url.append(completed_since);
    url
}

/// The address of `request` when it is made at `now`. Only a task listing
/// depends on the time, and only a task listing can be without an address.
pub open spec fn url_text(request: RequestView, now: Timestamp) -> Option<Seq<char>> {
    match request {
        RequestView::Workspaces => Some(workspaces_url_text()),
        RequestView::Projects { workspace_gid } => Some(projects_url_text(workspace_gid)),
        RequestView::Tasks { project_gid } => match completed_since_text(now) {
            Some(since) => Some(tasks_url_text(project_gid, since)),
            None => None,
        },
    }
}

/// Whether `url` is what addressing `request` at `now` gives.
pub open spec fn addresses(
    request: RequestView,
    now: Timestamp,
    url: Result<String, PipelineError>,
) -> bool {
    match url {
        Ok(text) => url_text(request, now) == Some(text@),
        Err(e) => e == PipelineError::TimeOutOfRange && url_text(request, now) is None,
    }
}

impl Request {
    /// The address of this request when it is made at `now`.
    pub fn url_at(&self, now: Timestamp) -> (url: Result<String, PipelineError>)
        ensures
            addresses(self@, now, url),
    {
        match self {
            Request::Workspaces => Ok(workspaces_url()),
            Request::Projects { workspace_gid } => Ok(projects_url(workspace_gid.as_str())),
            Request::Tasks { project_gid } => match completed_since(now) {
                Some(since) => Ok(tasks_url(project_gid.as_str(), since.as_str())),
                None => Err(PipelineError::TimeOutOfRange),
            },
        }
    }

    /// The address of this request when it is made now, by the system
    /// clock. Whatever the clock reads, the address is the one for that
    /// reading.
    pub fn url(&self) -> (url: Result<String, PipelineError>)
        ensures
            exists|now: Timestamp| #[trigger] addresses(self@, now, url),
    {
        let reading = utc_now();
        let url = self.url_at(reading);
        assert(addresses(self@, reading, url));
        url
    }
}

} // verus!
