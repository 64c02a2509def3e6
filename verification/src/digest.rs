//! From the tasks that the service lists to the lines of the digest: keep
//! the completed ones, put them in order of completion, write one line each.

use crate::model::{
    completion_is_before, completion_precedes, task_views, Task, TaskView, Timestamp,
};
use vstd::prelude::*;
use vstd::string::StringExecFns;

verus! {

/// The completed tasks of a listing, in the order of the listing.
pub open spec fn completed_of(tasks: Seq<TaskView>) -> Seq<TaskView> {
    tasks.filter(|t: TaskView| t.completed)
}

/// Keeps the completed tasks of a listing and drops the others.
pub fn retain_completed(tasks: Vec<Task>) -> (kept: Vec<Task>)
    ensures
        task_views(kept@) == completed_of(task_views(tasks@)),
        forall|i: int| 0 <= i < kept.len() ==> (#[trigger] kept[i]).completed,
{
    let ghost all = task_views(tasks@);
    let mut kept: Vec<Task> = Vec::new();
    assert(all.take(0) =~= Seq::<TaskView>::empty());
    assert(task_views(kept@) =~= completed_of(all.take(0))) by {
        reveal(Seq::filter);
    }
    for task in it: tasks
        invariant
            all == task_views(it.seq()),
            task_views(kept@) == completed_of(all.take(it.index() as int)),
            forall|i: int| 0 <= i < kept.len() ==> (#[trigger] kept[i]).completed,
    {
        proof {
            let seen = all.take(it.index() as int);
            assert(all.take(it.index() + 1) =~= seen.push(task@));
            seen.lemma_filter_push(task@, |t: TaskView| t.completed);
            assert(task_views(kept@.push(task)) =~= task_views(kept@).push(task@));
        }
        if task.completed {
            kept.push(task);
        }
    }
    assert(all.take(all.len() as int) =~= all);
    kept
}

/// `task` put into `ordered` behind every task that does not come after
/// it: it moves forward past those with a strictly later completion time
/// and no further.
pub open spec fn insert_by_completion(ordered: Seq<TaskView>, task: TaskView) -> Seq<TaskView>
    decreases ordered.len(),
{
    if ordered.len() > 0 && completion_precedes(task.completed_at, ordered.last().completed_at) {
        insert_by_completion(ordered.drop_last(), task).push(ordered.last())
    } else {
        ordered.push(task)
    }
}

/// The tasks in order of completion, earliest first. Tasks without a
/// completion time come first, and tasks with the same completion time keep
/// the order they had.
pub open spec fn sorted_by_completion(tasks: Seq<TaskView>) -> Seq<TaskView>
    decreases tasks.len(),
{
    if tasks.len() == 0 {
        Seq::empty()
    } else {
        insert_by_completion(sorted_by_completion(tasks.drop_last()), tasks.last())
    }
}

/// No task stands before one that was completed strictly earlier.
pub open spec fn ordered_by_completion(tasks: Seq<TaskView>) -> bool {
    forall|i: int, j: int|
        0 <= i < j < tasks.len() ==> !completion_precedes(
            #[trigger] tasks[j].completed_at,
            #[trigger] tasks[i].completed_at,
        )
}

/// The tasks of a run whose completion time is `at`, in their order.
pub open spec fn completed_at(tasks: Seq<TaskView>, at: Option<Timestamp>) -> Seq<TaskView> {
    tasks.filter(|t: TaskView| t.completed_at == at)
}

/// Where `task` lands: if every task from `at` on comes strictly after it
/// and the one before `at` does not, insertion puts it at `at`.
proof fn lemma_insert_lands_at(ordered: Seq<TaskView>, task: TaskView, at: int)
    requires
        0 <= at <= ordered.len(),
        forall|j: int|
            at <= j < ordered.len() ==> completion_precedes(
                task.completed_at,
                #[trigger] ordered[j].completed_at,
            ),
        at == 0 || !completion_precedes(task.completed_at, ordered[at - 1].completed_at),
    ensures
        insert_by_completion(ordered, task) == ordered.insert(at, task),
    decreases ordered.len() - at,
{
    if at == ordered.len() {
        assert(ordered.insert(at, task) =~= ordered.push(task));
    } else {
        lemma_insert_lands_at(ordered.drop_last(), task, at);
        assert(ordered.insert(at, task) =~= ordered.drop_last().insert(at, task).push(
            ordered.last(),
        ));
    }
}

/// Insertion into a run in order gives a run in order, one longer, that
/// holds the new task and otherwise only tasks of the old run.
proof fn lemma_insert_keeps_order(ordered: Seq<TaskView>, task: TaskView)
    requires
        ordered_by_completion(ordered),
    ensures
        ordered_by_completion(insert_by_completion(ordered, task)),
        insert_by_completion(ordered, task).len() == ordered.len() + 1,
        forall|i: int|
            0 <= i < ordered.len() + 1 ==> {
                let t = #[trigger] insert_by_completion(ordered, task)[i];
                t == task || ordered.contains(t)
            },
    decreases ordered.len(),
{
    if ordered.len() > 0 && completion_precedes(task.completed_at, ordered.last().completed_at) {
        let front = ordered.drop_last();
        lemma_insert_keeps_order(front, task);
        let placed = insert_by_completion(front, task);
        assert forall|i: int, j: int| 0 <= i < j < placed.len() + 1 implies !completion_precedes(
            #[trigger] placed.push(ordered.last())[j].completed_at,
            #[trigger] placed.push(ordered.last())[i].completed_at,
        ) by {
            if j == placed.len() {
                let t = placed[i];
                if t != task {
                    assert(front.contains(t));
                    let k = choose|k: int| 0 <= k < front.len() && front[k] == t;
                    assert(ordered[k] == t);
                }
            }
        }
        assert forall|i: int| 0 <= i < ordered.len() + 1 implies {
            let t = #[trigger] insert_by_completion(ordered, task)[i];
            t == task || ordered.contains(t)
        } by {
            let t = insert_by_completion(ordered, task)[i];
            if i < placed.len() {
                if t != task {
                    let k = choose|k: int| 0 <= k < front.len() && front[k] == t;
                    assert(ordered[k] == t);
                }
            } else {
                assert(ordered[ordered.len() - 1] == t);
            }
        }
    } else {
        assert forall|i: int| 0 <= i < ordered.len() + 1 implies {
            let t = #[trigger] insert_by_completion(ordered, task)[i];
            t == task || ordered.contains(t)
        } by {
            if i < ordered.len() {
                assert(ordered[i] == ordered.push(task)[i]);
            }
        }
    }
}

/// Insertion leaves the tasks of each completion time as they were, but
/// for the new task, which comes last among those of its own time.
proof fn lemma_insert_keeps_each_time(ordered: Seq<TaskView>, task: TaskView, at: Option<Timestamp>)
    ensures
        completed_at(insert_by_completion(ordered, task), at) == if task.completed_at == at {
            completed_at(ordered, at).push(task)
        } else {
            completed_at(ordered, at)
        },
    decreases ordered.len(),
{
    let same = |t: TaskView| t.completed_at == at;
    if ordered.len() > 0 && completion_precedes(task.completed_at, ordered.last().completed_at) {
        let front = ordered.drop_last();
        lemma_insert_keeps_each_time(front, task, at);
        insert_by_completion(front, task).lemma_filter_push(ordered.last(), same);
        front.lemma_filter_push(ordered.last(), same);
        assert(front.push(ordered.last()) =~= ordered);
    } else {
        ordered.lemma_filter_push(task, same);
    }
}

/// Sorting by completion puts the tasks in order, neither adds nor loses
/// one, and is stable: for each completion time, the tasks that share it
/// stand in the order they had.
pub proof fn sorted_by_completion_is_a_stable_sort(tasks: Seq<TaskView>)
    ensures
        ordered_by_completion(sorted_by_completion(tasks)),
        sorted_by_completion(tasks).len() == tasks.len(),
        sorted_by_completion(tasks).to_multiset() == tasks.to_multiset(),
        forall|at: Option<Timestamp>| #[trigger]
            completed_at(sorted_by_completion(tasks), at) == completed_at(tasks, at),
    decreases tasks.len(),
{
    if tasks.len() == 0 {
        assert(tasks =~= Seq::empty());
    } else {
        let front = tasks.drop_last();
        let ordered = sorted_by_completion(front);
        sorted_by_completion_is_a_stable_sort(front);
        lemma_insert_keeps_order(ordered, tasks.last());
        assert(front.push(tasks.last()) =~= tasks);
        assert(sorted_by_completion(tasks).to_multiset() == tasks.to_multiset()) by {
            lemma_insert_is_a_permutation(ordered, tasks.last());
            front.to_multiset_ensures();
        }
        assert forall|at: Option<Timestamp>| #[trigger]
            completed_at(sorted_by_completion(tasks), at) == completed_at(tasks, at) by {
            lemma_insert_keeps_each_time(ordered, tasks.last(), at);
            front.lemma_filter_push(tasks.last(), |t: TaskView| t.completed_at == at);
        }
    }
}

/// Insertion adds the new task and nothing else.
proof fn lemma_insert_is_a_permutation(ordered: Seq<TaskView>, task: TaskView)
    ensures
        insert_by_completion(ordered, task).to_multiset() == ordered.to_multiset().insert(task),
    decreases ordered.len(),
{
    if ordered.len() > 0 && completion_precedes(task.completed_at, ordered.last().completed_at) {
        let front = ordered.drop_last();
        lemma_insert_is_a_permutation(front, task);
        insert_by_completion(front, task).to_multiset_ensures();
        front.to_multiset_ensures();
        assert(front.push(ordered.last()) =~= ordered);
        assert(front.to_multiset().insert(task).insert(ordered.last())
            =~= front.to_multiset().insert(ordered.last()).insert(task));
    } else {
        ordered.to_multiset_ensures();
    }
}

/// Two runs in order that agree, for each completion time, on the tasks of
/// that time and their order, are the same run.
proof fn lemma_same_groups_in_order_are_equal(a: Seq<TaskView>, b: Seq<TaskView>)
    requires
        ordered_by_completion(a),
        ordered_by_completion(b),
        forall|at: Option<Timestamp>| #[trigger] completed_at(a, at) == completed_at(b, at),
    ensures
        a == b,
    decreases a.len(), b.len(),
{
    if a.len() == 0 {
        if b.len() > 0 {
            let at = b[0].completed_at;
            b.lemma_filter_contains(|t: TaskView| t.completed_at == at, 0);
            assert(completed_at(b, at).len() > 0);
            assert(completed_at(a, at).len() == 0) by {
                a.lemma_filter_len(|t: TaskView| t.completed_at == at);
            }
        }
        assert(a =~= b);
    } else if b.len() == 0 {
        lemma_same_groups_in_order_are_equal(b, a);
    } else {
        let x = a.last();
        let y = b.last();
        assert(x.completed_at == y.completed_at) by {
            lemma_last_is_latest(a, b);
            lemma_last_is_latest(b, a);
        }
        let front_a = a.drop_last();
        let front_b = b.drop_last();
        assert(front_a.push(x) =~= a);
        assert(front_b.push(y) =~= b);
        let shared = x.completed_at;
        let group_a = completed_at(front_a, shared);
        let group_b = completed_at(front_b, shared);
        assert(x == y && group_a == group_b) by {
            let same = |t: TaskView| t.completed_at == shared;
            front_a.lemma_filter_push(x, same);
            front_b.lemma_filter_push(y, same);
            assert(completed_at(a, shared) == completed_at(b, shared));
            assert(group_a.push(x).last() == x);
            assert(group_b.push(y).last() == y);
            assert(group_a.push(x).drop_last() =~= group_a);
            assert(group_b.push(y).drop_last() =~= group_b);
        }
        assert forall|at: Option<Timestamp>| #[trigger]
            completed_at(front_a, at) == completed_at(front_b, at) by {
            if at != shared {
                let same = |t: TaskView| t.completed_at == at;
                front_a.lemma_filter_push(x, same);
                front_b.lemma_filter_push(y, same);
                assert(completed_at(a, at) == completed_at(b, at));
            }
        }
        lemma_same_groups_in_order_are_equal(front_a, front_b);
    }
}

/// The last task of a run in order is completed no earlier than the last
/// task of any run that holds the same tasks.
proof fn lemma_last_is_latest(a: Seq<TaskView>, b: Seq<TaskView>)
    requires
        a.len() > 0,
        b.len() > 0,
        ordered_by_completion(a),
        forall|at: Option<Timestamp>| #[trigger] completed_at(a, at) == completed_at(b, at),
    ensures
        !completion_precedes(a.last().completed_at, b.last().completed_at),
{
    let y = b.last();
    let same = |t: TaskView| t.completed_at == y.completed_at;
    b.lemma_filter_contains(same, b.len() - 1);
    assert(completed_at(a, y.completed_at).contains(y));
    a.lemma_filter_contains_rev(same, y);
    let i = choose|i: int| 0 <= i < a.len() && a[i] == y;
    if i < a.len() - 1 {
        assert(!completion_precedes(a[a.len() - 1].completed_at, a[i].completed_at));
    }
}

/// There is one way only to sort stably: a run that is in order, and in
/// which the tasks of each completion time are those of `tasks` in the
/// order they have there, is `sorted_by_completion(tasks)`.
pub proof fn stable_sort_is_unique(tasks: Seq<TaskView>, arranged: Seq<TaskView>)
    requires
        ordered_by_completion(arranged),
        forall|at: Option<Timestamp>| #[trigger]
            completed_at(arranged, at) == completed_at(tasks, at),
    ensures
        arranged == sorted_by_completion(tasks),
{
    sorted_by_completion_is_a_stable_sort(tasks);
    lemma_same_groups_in_order_are_equal(arranged, sorted_by_completion(tasks));
}

/// Puts the tasks in order of completion, earliest first, in place. Tasks
/// without a completion time come first; tasks with the same completion
/// time keep the order they had.
pub fn sort_by_completion(tasks: &mut Vec<Task>)
    ensures
        task_views(final(tasks)@) == sorted_by_completion(task_views(old(tasks)@)),
        ordered_by_completion(task_views(final(tasks)@)),
        task_views(final(tasks)@).to_multiset() == task_views(old(tasks)@).to_multiset(),
        final(tasks).len() == old(tasks).len(),
{
    let ghost given = task_views(tasks@);
    let total: usize = tasks.len();
    let mut done: usize = 0;
    assert(given.take(0) =~= Seq::<TaskView>::empty());
    assert(task_views(tasks@) =~= sorted_by_completion(given.take(0)) + given.skip(0));
    while done < total
        invariant
            done <= total == tasks.len() == given.len(),
            task_views(tasks@) == sorted_by_completion(given.take(done as int)) + given.skip(
                done as int,
            ),
        decreases total - done,
    {
        let ghost front = sorted_by_completion(given.take(done as int));
        let ghost before = task_views(tasks@);
        proof {
            sorted_by_completion_is_a_stable_sort(given.take(done as int));
            assert(before.take(done as int) =~= front);
        }
        let key: Option<Timestamp> = tasks[done].completed_at;
        let mut at: usize = done;
        while at > 0 && completion_is_before(&key, &tasks[at - 1].completed_at)
            invariant
                at <= done < tasks.len(),
                before == task_views(tasks@),
                forall|j: int|
                    at <= j < done ==> completion_precedes(
                        key,
                        #[trigger] before[j].completed_at,
                    ),
            decreases at,
        {
            at = at - 1;
        }
        let ghost held = tasks@;
        let task = tasks.remove(done);
        tasks.insert(at, task);
        proof {
            let rest = given.skip(done + 1);
            assert(front.len() == done);
            assert(task@ == before[done as int]);
            assert(before[done as int] == given.skip(done as int)[0]);
            lemma_insert_lands_at(front, task@, at as int);
            assert(given.take(done + 1).drop_last() =~= given.take(done as int));
            assert(given.take(done + 1).last() == task@);
            let lifted = held.remove(done as int);
            assert forall|i: int| 0 <= i < lifted.len() implies task_views(lifted)[i] == (front
                + rest)[i] by {
                if i < done {
                    assert(lifted[i] == held[i]);
                    assert(before[i] == front[i]);
                } else {
                    assert(lifted[i] == held[i + 1]);
                    assert(before[i + 1] == given.skip(done as int)[i + 1 - done]);
                }
            }
            assert(task_views(lifted) =~= front + rest);
            let placed = lifted.insert(at as int, task);
            assert forall|i: int| 0 <= i < placed.len() implies task_views(placed)[i] == (
            front.insert(at as int, task@) + rest)[i] by {
                if i < at {
                    assert(placed[i] == lifted[i]);
                    assert(task_views(lifted)[i] == front[i]);
                } else if i > at {
                    assert(placed[i] == lifted[i - 1]);
                    assert(task_views(lifted)[i - 1] == (front + rest)[i - 1]);
                }
            }
            assert(task_views(placed) =~= front.insert(at as int, task@) + rest);
        }
        done = done + 1;
    }
    proof {
        assert(given.take(total as int) =~= given);
        assert(given.skip(total as int) =~= Seq::<TaskView>::empty());
        assert(task_views(tasks@) =~= sorted_by_completion(given));
        sorted_by_completion_is_a_stable_sort(given);
    }
}

/// The line of the digest for a task of the given name.
pub open spec fn bullet_text(name: Seq<char>) -> Seq<char> {
    "- "@ + name
}

/// The lines of the digest for a run of tasks: one per task, in their
/// order.
pub open spec fn bullet_texts(tasks: Seq<TaskView>) -> Seq<Seq<char>> {
    tasks.map_values(|t: TaskView| bullet_text(t.name))
}

/// Writes the line of the digest for a task of the given name.
pub fn bullet_line(name: &str) -> (line: String)
    ensures
        line@ == bullet_text(name@),
{
    let mut line = String::from_str("- ");
    line.append(name);
    line
}

/// Writes the lines of the digest, one per task, in the order of `tasks`.
pub fn bullet_lines(tasks: &Vec<Task>) -> (lines: Vec<String>)
    ensures
        lines.deep_view() == bullet_texts(task_views(tasks@)),
{
    let mut lines: Vec<String> = Vec::new();
    let mut i: usize = 0;
    while i < tasks.len()
        invariant
            i <= tasks.len(),
            lines.len() == i,
            forall|j: int| 0 <= j < i ==> (#[trigger] lines[j])@ == bullet_text(tasks[j].name@),
        decreases tasks.len() - i,
    {
        lines.push(bullet_line(tasks[i].name.as_str()));
        i = i + 1;
    }
    assert(lines.deep_view() =~= bullet_texts(task_views(tasks@)));
    lines
}

} // verus!
