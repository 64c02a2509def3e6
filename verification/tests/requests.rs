use completed_tasks::clock::completed_since;
use completed_tasks::credentials::{
    authorization_header, bearer_header_value, get_access_token, token_variable,
};
use completed_tasks::error::PipelineError;
use completed_tasks::model::Timestamp;
use completed_tasks::request::{projects_url, tasks_url, workspaces_url, Request};

const DAY: i64 = 86_400;

fn at(secs: i64) -> Timestamp {
    Timestamp { secs, nanos: 0 }
}

#[test]
fn token_variable_is_the_documented_one() {
    assert_eq!(token_variable(), "ASANA_PERSONAL_ACCESS_TOKEN");
}

#[test]
fn a_token_that_was_found_is_handed_on_unchanged() {
    assert_eq!(get_access_token(Some("0/abc123".to_string())), Ok("0/abc123".to_string()));
    assert_eq!(get_access_token(Some(String::new())), Ok(String::new()));
}

#[test]
fn a_missing_token_is_an_error() {
    assert_eq!(get_access_token(None), Err(PipelineError::MissingToken));
}

#[test]
fn the_token_is_sent_as_a_bearer_credential() {
    assert_eq!(authorization_header(), "Authorization");
    assert_eq!(bearer_header_value("0/abc123"), "Bearer 0/abc123");
    assert_eq!(bearer_header_value(""), "Bearer ");
}

#[test]
fn workspace_listing_has_a_fixed_address() {
    assert_eq!(workspaces_url(), "https://app.asana.com/api/1.0/workspaces");
}

#[test]
fn project_listing_is_addressed_by_workspace() {
    assert_eq!(
        projects_url("1199"),
        "https://app.asana.com/api/1.0/workspaces/1199/projects"
    );
    assert_eq!(projects_url(""), "https://app.asana.com/api/1.0/workspaces//projects");
}

#[test]
fn identifiers_go_into_addresses_as_they_are() {
    assert_eq!(
        projects_url("a b/c?d"),
        "https://app.asana.com/api/1.0/workspaces/a b/c?d/projects"
    );
}

#[test]
fn task_listing_names_fields_and_lower_bound() {
    assert_eq!(
        tasks_url("77", "2015-05-15T00:00:00"),
        "https://app.asana.com/api/1.0/projects/77/tasks?opt_fields=name,completed,completed_at&completed_since=2015-05-15T00:00:00"
    );
}

#[test]
fn lower_bound_is_one_day_back_written_to_the_second() {
    assert_eq!(completed_since(at(DAY)), Some("1970-01-01T00:00:00".to_string()));
    assert_eq!(completed_since(at(0)), Some("1969-12-31T00:00:00".to_string()));
    assert_eq!(
        completed_since(at(1_431_648_000 + DAY)),
        Some("2015-05-15T00:00:00".to_string())
    );
    assert_eq!(
        completed_since(at(1_700_000_000 + DAY)),
        Some("2023-11-14T22:13:20".to_string())
    );
}

#[test]
fn lower_bound_knows_leap_days() {
    assert_eq!(
        completed_since(at(951_868_799 + DAY)),
        Some("2000-02-29T23:59:59".to_string())
    );
    assert_eq!(
        completed_since(at(1_709_251_199 + DAY)),
        Some("2024-02-29T23:59:59".to_string())
    );
}

#[test]
fn lower_bound_ignores_the_fraction_of_a_second() {
    let late = Timestamp { secs: DAY, nanos: 999_999_999 };
    assert_eq!(completed_since(late), Some("1970-01-01T00:00:00".to_string()));
    let leap = Timestamp { secs: DAY + 59, nanos: 1_500_000_000 };
    assert_eq!(completed_since(leap), Some("1970-01-01T00:00:59".to_string()));
}

#[test]
fn lower_bound_of_an_unwritable_time_is_none() {
    assert_eq!(completed_since(at(i64::MIN)), None);
    assert_eq!(completed_since(at(i64::MIN + DAY - 1)), None);
    assert_eq!(completed_since(at(i64::MIN + DAY)), None);
    assert_eq!(completed_since(at(i64::MAX)), None);
}

#[test]
fn requests_without_a_lower_bound_do_not_depend_on_the_time() {
    let projects = Request::Projects { workspace_gid: "5".to_string() };
    for now in [at(0), at(1_700_000_000), at(i64::MIN), at(i64::MAX)] {
        assert_eq!(
            Request::Workspaces.url_at(now),
            Ok("https://app.asana.com/api/1.0/workspaces".to_string())
        );
        assert_eq!(
            projects.url_at(now),
            Ok("https://app.asana.com/api/1.0/workspaces/5/projects".to_string())
        );
    }
    assert_eq!(Request::Workspaces.url(), Request::Workspaces.url_at(at(0)));
    assert_eq!(projects.url(), projects.url_at(at(0)));
}

#[test]
fn task_request_is_addressed_for_the_day_before() {
    let tasks = Request::Tasks { project_gid: "77".to_string() };
    assert_eq!(
        tasks.url_at(at(1_431_648_000 + DAY)),
        Ok("https://app.asana.com/api/1.0/projects/77/tasks?opt_fields=name,completed,completed_at&completed_since=2015-05-15T00:00:00".to_string())
    );
}

#[test]
fn task_request_at_an_unwritable_time_has_no_address() {
    let tasks = Request::Tasks { project_gid: "77".to_string() };
    assert_eq!(tasks.url_at(at(i64::MIN)), Err(PipelineError::TimeOutOfRange));
    assert_eq!(tasks.url_at(at(i64::MAX)), Err(PipelineError::TimeOutOfRange));
}

#[test]
fn task_request_made_now_reaches_back_one_day_from_the_clock() {
    let tasks = Request::Tasks { project_gid: "77".to_string() };
    let before = chrono::Utc::now().timestamp();
    let url = tasks.url();
    let after = chrono::Utc::now().timestamp();
    let mut matched = false;
    let mut secs = before;
    while secs <= after {
        if url == tasks.url_at(at(secs)) {
            matched = true;
        }
        secs += 1;
    }
    assert!(matched);
    assert!(url.is_ok());
}
