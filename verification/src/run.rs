//! Whole runs: what the transition of the pipeline adds up to when replies
//! are fed to it one after another.

use crate::digest::{
    bullet_texts, completed_of, ordered_by_completion, sorted_by_completion,
    sorted_by_completion_is_a_stable_sort,
};
use crate::error::PipelineError;
use crate::model::TaskView;
use crate::pipeline::{advance, initial, next, ActionView, PipelineView, ReplyView, Stage};
use crate::request::RequestView;
use vstd::prelude::*;

verus! {

/// The actions with which a run in `state` answers `replies`, fed to it one
/// after another.
pub open spec fn answers(state: PipelineView, replies: Seq<ReplyView>) -> Seq<ActionView>
    decreases replies.len(),
{
    if replies.len() == 0 {
        Seq::empty()
    } else {
        seq![next(state, replies.first()).1] + answers(
            next(state, replies.first()).0,
            replies.drop_first(),
        )
    }
}

/// One task reply per listing, in their order.
pub open spec fn task_replies(listings: Seq<Seq<TaskView>>) -> Seq<ReplyView> {
    listings.map_values(|listing: Seq<TaskView>| ReplyView::Tasks(listing))
}

/// The digest of a run whose projects listed `listings`.
pub open spec fn digest_of(listings: Seq<Seq<TaskView>>) -> Seq<TaskView> {
    sorted_by_completion(completed_of(listings.flatten()))
}

/// From the moment the projects are known: one task request per pending
/// project, in order, each answered by its listing, and then the digest of
/// what was kept before together with the completed tasks of the listings.
proof fn lemma_project_rounds(state: PipelineView, listings: Seq<Seq<TaskView>>)
    requires
        listings.len() == state.pending.len(),
    ensures
        ({
            let begun = advance(state);
            let actions = seq![begun.1] + answers(begun.0, task_replies(listings));
            &&& actions.len() == listings.len() + 1
            &&& forall|i: int|
                0 <= i < listings.len() ==> #[trigger] actions[i] == ActionView::Fetch(
                    RequestView::Tasks { project_gid: state.pending[i] },
                )
            &&& actions[listings.len() as int] == ActionView::Print(
                bullet_texts(sorted_by_completion(state.kept + completed_of(listings.flatten()))),
            )
        }),
    decreases listings.len(),
{
    let begun = advance(state);
    let replies = task_replies(listings);
    let actions = seq![begun.1] + answers(begun.0, replies);
    if listings.len() == 0 {
        assert(completed_of(listings.flatten()) =~= Seq::<TaskView>::empty()) by {
            reveal(Seq::filter);
        }
        assert(state.kept + completed_of(listings.flatten()) =~= state.kept);
    } else {
        let first = listings.first();
        let rest = listings.drop_first();
        let grown = PipelineView {
            token: begun.0.token,
            stage: begun.0.stage,
            pending: begun.0.pending,
            kept: state.kept + completed_of(first),
        };
        lemma_project_rounds(grown, rest);
        assert(replies.drop_first() =~= task_replies(rest));
        assert(next(begun.0, replies.first()) == advance(grown));
        let later = seq![advance(grown).1] + answers(advance(grown).0, task_replies(rest));
        assert(answers(begun.0, replies) =~= later);
        assert forall|i: int| 0 <= i < listings.len() implies #[trigger] actions[i]
            == ActionView::Fetch(RequestView::Tasks { project_gid: state.pending[i] }) by {
            if i > 0 {
                assert(actions[i] == later[i - 1]);
                assert(grown.pending[i - 1] == state.pending[i]);
            }
        }
        assert(actions[listings.len() as int] == later[rest.len() as int]);
        assert(grown.kept + completed_of(rest.flatten()) =~= state.kept + completed_of(
            listings.flatten(),
        )) by {
            Seq::filter_distributes_over_add(first, rest.flatten(), |t: TaskView| t.completed);
        }
    }
}

/// A run with a token, at least one workspace and `n` projects takes
/// `n + 3` actions. It asks for the workspaces, then for the projects of
/// the first workspace, then for the tasks of each project in the order of
/// the project listing, once each; and it ends by printing the digest of the
/// task listings. So it makes `n + 2` requests, and none after the digest.
pub proof fn run_asks_for_each_project_in_turn(
    token: Seq<char>,
    workspaces: Seq<Seq<char>>,
    projects: Seq<Seq<char>>,
    listings: Seq<Seq<TaskView>>,
)
    requires
        workspaces.len() > 0,
        listings.len() == projects.len(),
    ensures
        ({
            let begun = initial(Some(token));
            let replies = seq![ReplyView::Entries(workspaces), ReplyView::Entries(projects)]
                + task_replies(listings);
            let actions = seq![begun.1] + answers(begun.0, replies);
            &&& actions.len() == projects.len() + 3
            &&& actions[0] == ActionView::Fetch(RequestView::Workspaces)
            &&& actions[1] == ActionView::Fetch(
                RequestView::Projects { workspace_gid: workspaces.first() },
            )
            &&& forall|i: int|
                2 <= i < projects.len() + 2 ==> #[trigger] actions[i] == ActionView::Fetch(
                    RequestView::Tasks { project_gid: projects[i - 2] },
                )
            &&& actions[projects.len() as int + 2] == ActionView::Print(
                bullet_texts(digest_of(listings)),
            )
        }),
{
    let begun = initial(Some(token));
    let replies = seq![ReplyView::Entries(workspaces), ReplyView::Entries(projects)]
        + task_replies(listings);
    let actions = seq![begun.1] + answers(begun.0, replies);
    let listed = next(begun.0, replies.first());
    let onward = replies.drop_first();
    assert(onward.drop_first() =~= task_replies(listings));
    let loaded = PipelineView {
        token: listed.0.token,
        stage: listed.0.stage,
        pending: projects,
        kept: listed.0.kept,
    };
    lemma_project_rounds(loaded, listings);
    let rounds = seq![advance(loaded).1] + answers(advance(loaded).0, task_replies(listings));
    assert(next(listed.0, onward.first()) == advance(loaded));
    assert(answers(listed.0, onward) =~= rounds);
    assert(answers(begun.0, replies) =~= seq![listed.1] + rounds);
    assert forall|i: int| 2 <= i < projects.len() + 2 implies #[trigger] actions[i]
        == ActionView::Fetch(RequestView::Tasks { project_gid: projects[i - 2] }) by {
        assert(actions[i] == rounds[i - 2]);
    }
    assert(actions[projects.len() as int + 2] == rounds[listings.len() as int]);
    assert(loaded.kept + completed_of(listings.flatten()) =~= completed_of(listings.flatten()));
}

/// A run that is over asks for nothing more: whatever is fed to it, it
/// stays as it is and answers `UnexpectedReply`.
pub proof fn finished_run_asks_for_nothing(state: PipelineView, replies: Seq<ReplyView>)
    requires
        state.stage == Stage::Finished || state.stage == Stage::Failed,
    ensures
        answers(state, replies).len() == replies.len(),
        forall|i: int|
            0 <= i < replies.len() ==> #[trigger] answers(state, replies)[i] == ActionView::Fail(
                PipelineError::UnexpectedReply,
            ),
    decreases replies.len(),
{
    if replies.len() > 0 {
        finished_run_asks_for_nothing(state, replies.drop_first());
        let later = answers(state, replies.drop_first());
        assert forall|i: int| 0 <= i < replies.len() implies #[trigger] answers(state, replies)[i]
            == ActionView::Fail(PipelineError::UnexpectedReply) by {
            if i > 0 {
                assert(answers(state, replies)[i] == later[i - 1]);
            }
        }
    }
}

/// Without a token a run is over before it has asked for anything: its
/// first action is the failure `MissingToken`, and no request follows.
pub proof fn run_without_token_asks_for_nothing(replies: Seq<ReplyView>)
    ensures
        initial(None).1 == ActionView::Fail(PipelineError::MissingToken),
        initial(None).0.stage == Stage::Failed,
        forall|i: int|
            0 <= i < replies.len() ==> #[trigger] answers(initial(None).0, replies)[i]
                == ActionView::Fail(PipelineError::UnexpectedReply),
{
    finished_run_asks_for_nothing(initial(None).0, replies);
}

/// An empty workspace listing ends the run with `NoWorkspace` before any
/// project or task is asked for: the only request of such a run is the one
/// for the workspaces.
pub proof fn run_without_workspace_stops(token: Seq<char>, replies: Seq<ReplyView>)
    ensures
        ({
            let begun = initial(Some(token));
            let actions = answers(begun.0, seq![ReplyView::Entries(Seq::empty())] + replies);
            &&& begun.1 == ActionView::Fetch(RequestView::Workspaces)
            &&& actions.len() == replies.len() + 1
            &&& actions[0] == ActionView::Fail(PipelineError::NoWorkspace)
            &&& forall|i: int|
                1 <= i < replies.len() + 1 ==> #[trigger] actions[i] == ActionView::Fail(
                    PipelineError::UnexpectedReply,
                )
        }),
{
    let begun = initial(Some(token));
    let fed = seq![ReplyView::Entries(Seq::empty())] + replies;
    let stopped = next(begun.0, fed.first());
    assert(fed.drop_first() =~= replies);
    finished_run_asks_for_nothing(stopped.0, replies);
    let actions = answers(begun.0, fed);
    assert forall|i: int| 1 <= i < replies.len() + 1 implies #[trigger] actions[i]
        == ActionView::Fail(PipelineError::UnexpectedReply) by {
        assert(actions[i] == answers(stopped.0, replies)[i - 1]);
    }
}

/// A failed request ends the run on the spot, whatever had been gathered:
/// the answer is `RequestFailed`, and nothing is kept or pending after it.
pub proof fn failed_request_ends_the_run(state: PipelineView)
    requires
        state.stage != Stage::Finished,
        state.stage != Stage::Failed,
    ensures
        next(state, ReplyView::Failed).1 == ActionView::Fail(PipelineError::RequestFailed),
        next(state, ReplyView::Failed).0.stage == Stage::Failed,
        next(state, ReplyView::Failed).0.kept.len() == 0,
        next(state, ReplyView::Failed).0.pending.len() == 0,
{
}

/// The digest holds the completed tasks of the listings and no others, each
/// as often as it was listed, and no task in it stands before one that was
/// completed strictly earlier.
pub proof fn digest_holds_the_completed_tasks_in_order(listings: Seq<Seq<TaskView>>)
    ensures
        ordered_by_completion(digest_of(listings)),
        digest_of(listings).to_multiset() == completed_of(listings.flatten()).to_multiset(),
        forall|i: int| 0 <= i < digest_of(listings).len() ==> (#[trigger] digest_of(listings)[i]).completed,
        forall|t: TaskView|
            digest_of(listings).contains(t) <==> t.completed && listings.flatten().contains(t),
{
    let listed = listings.flatten();
    let done = completed_of(listed);
    let shown = digest_of(listings);
    let is_done = |t: TaskView| t.completed;
    sorted_by_completion_is_a_stable_sort(done);
    shown.to_multiset_ensures();
    done.to_multiset_ensures();
    #[allow(deprecated)]
    listed.filter_lemma(is_done);
    assert forall|t: TaskView| shown.contains(t) <==> t.completed && listed.contains(t) by {
        assert(shown.contains(t) <==> done.contains(t)) by {
            assert(shown.to_multiset().count(t) == done.to_multiset().count(t));
        }
        if done.contains(t) {
            listed.lemma_filter_contains_rev(is_done, t);
            let k = choose|k: int| 0 <= k < done.len() && done[k] == t;
            assert(is_done(done[k]));
        }
        if t.completed && listed.contains(t) {
            let k = choose|k: int| 0 <= k < listed.len() && listed[k] == t;
            assert(is_done(listed[k]));
            assert(done.contains(listed[k]));
        }
    }
    assert forall|i: int| 0 <= i < shown.len() implies (#[trigger] shown[i]).completed by {
        assert(shown.contains(shown[i]));
    }
}

} // verus!
