//! A whole run: the transfers of many images side by side, from the first to
//! the last, and what the state holds in the end.
//!
//! A run is told as a sequence of moves. In each move one transfer starts or
//! performs one action; which one is left open, but for a limit on how many
//! transfers are under way at once. So what is proved of a run holds of every
//! way in which its transfers can be interleaved.

use vstd::multiset::Multiset;
use vstd::prelude::*;

use crate::image::ImageView;
use crate::state::{failures_of, ResultView, StateView, Timestamp};
use crate::state::{law_exactly_the_failures_are_recorded, law_order_of_results_does_not_matter};
use crate::transfer::{
    failure, only_tells, progress, ActionView, OutcomeView, ProgressView, RouteView,
};

verus! {

/// How far the transfer of an image has come in a run.
pub enum TaskView {
    /// It has not started.
    Waiting,
    /// It performs the action at `position` of its script next.
    Running { script: Seq<ActionView>, position: nat },
    /// It is over.
    Ended,
}

/// A run under way: the state, how far each transfer has come, and the results
/// of the transfers that are over, in the order in which they ended.
pub struct RunView {
    pub state: StateView,
    pub tasks: Seq<TaskView>,
    pub results: Seq<ResultView>,
}

/// A move of a run: which transfer makes it, and when.
pub type MoveView = (int, Timestamp);

/// What a run is about: where the images go, which they are, and how each
/// action of each transfer goes, by the image and the place in its script.
pub struct PlanView {
    pub route: RouteView,
    pub images: Seq<ImageView>,
    pub outcome: spec_fn(int, int) -> OutcomeView,
}

/// The error that ends a transfer, if there is one, from `position` of its
/// script on.
pub open spec fn error_from(
    script: Seq<ActionView>,
    outcome: spec_fn(int) -> OutcomeView,
    position: nat,
) -> Option<Seq<char>>
    decreases script.len() - position,
{
    if position >= script.len() {
        None
    } else {
        match failure(script[position as int], outcome(position as int)) {
            Some(error) => Some(error),
            None => error_from(script, outcome, position + 1),
        }
    }
}

/// Whether a transfer marks its image as completed, from `position` of its
/// script on.
pub open spec fn marks_from(
    script: Seq<ActionView>,
    outcome: spec_fn(int) -> OutcomeView,
    position: nat,
) -> bool
    decreases script.len() - position,
{
    if position >= script.len() {
        false
    } else {
        ||| script[position as int] is MarkCompleted
        ||| failure(script[position as int], outcome(position as int)) is None && marks_from(
            script,
            outcome,
            position + 1,
        )
    }
}

/// How many transfers are under way.
pub open spec fn under_way(tasks: Seq<TaskView>) -> nat
    decreases tasks.len(),
{
    if tasks.len() == 0 {
        0
    } else {
        under_way(tasks.drop_last()) + if tasks.last() is Running {
            1nat
        } else {
            0nat
        }
    }
}

/// The references of failures.
pub open spec fn failed_refs(failures: Seq<(Seq<char>, Seq<char>)>) -> Set<Seq<char>> {
    failures.map_values(|f: (Seq<char>, Seq<char>)| f.0).to_set()
}

/// The images of results.
pub open spec fn result_images(results: Seq<ResultView>) -> Seq<ImageView> {
    results.map_values(|result: ResultView| result.0)
}

/// The images whose transfers are over.
spec fn ended_images(images: Seq<ImageView>, tasks: Seq<TaskView>) -> Multiset<ImageView>
    decreases tasks.len(),
{
    if tasks.len() == 0 {
        Multiset::empty()
    } else {
        let rest = ended_images(images.drop_last(), tasks.drop_last());
        if tasks.last() is Ended {
            rest.insert(images.last())
        } else {
            rest
        }
    }
}

impl RunView {
    /// Whether a transfer may make a move, with at most `limit` of them under
    /// way at once.
    pub open spec fn may_move(self, i: int, limit: nat) -> bool {
        &&& 0 <= i < self.tasks.len()
        &&& match self.tasks[i] {
            TaskView::Waiting => under_way(self.tasks) < limit,
            TaskView::Running { .. } => true,
            TaskView::Ended => false,
        }
    }

    /// Whether every transfer is over.
    pub open spec fn is_over(self) -> bool {
        forall|i: int| 0 <= i < self.tasks.len() ==> (#[trigger] self.tasks[i]) is Ended
    }
}

impl PlanView {
    /// Whether no two images have the same reference.
    pub open spec fn distinct(self) -> bool {
        forall|i: int, j: int|
            0 <= i < j < self.images.len() ==> (#[trigger] self.images[i]).image_ref() != (
            #[trigger] self.images[j]).image_ref()
    }

    /// The references of the images.
    pub open spec fn refs(self) -> Seq<Seq<char>> {
        self.images.map_values(|image: ImageView| image.image_ref())
    }

    /// What the transfer of image `i` does, `completed` being the images that
    /// are done already.
    pub open spec fn script(self, i: int, completed: Set<Seq<char>>) -> Seq<ActionView> {
        self.route.script(self.images[i], completed)
    }

    /// How the actions of the transfer of image `i` go.
    pub open spec fn outcomes(self, i: int) -> spec_fn(int) -> OutcomeView {
        |k: int| (self.outcome)(i, k)
    }

    /// The error of the transfer of image `i`, if there is one, `completed`
    /// being the images that are done before the run.
    pub open spec fn error(self, i: int, completed: Set<Seq<char>>) -> Option<Seq<char>> {
        error_from(self.script(i, completed), self.outcomes(i), 0)
    }

    /// Whether the transfer of image `i` marks it as completed, `completed`
    /// being the images that are done before the run.
    pub open spec fn marks(self, i: int, completed: Set<Seq<char>>) -> bool {
        marks_from(self.script(i, completed), self.outcomes(i), 0)
    }

    /// Whether everything goes well but for the docker commands: whatever is
    /// shown is shown, and the state is saved.
    pub open spec fn saves_go_well(self, completed: Set<Seq<char>>) -> bool {
        forall|i: int, k: int|
            #![trigger self.script(i, completed)[k]]
            0 <= i < self.images.len() && 0 <= k < self.script(i, completed).len()
                && self.script(i, completed)[k] !is Docker ==> failure(
                self.script(i, completed)[k],
                (self.outcome)(i, k),
            ) is None
    }

    /// The results of the transfers, in the order of the images, `completed`
    /// being the images that are done before the run.
    pub open spec fn results(self, completed: Set<Seq<char>>) -> Seq<ResultView> {
        Seq::new(self.images.len(), |i: int| (self.images[i], self.error(i, completed)))
    }

    /// The run before its first move, `state` being what it found: the images
    /// are counted, as by `Migrator::begin_run`.
    pub open spec fn start(self, state: StateView) -> RunView {
        RunView {
            state: state.beginning(self.images.len()),
            tasks: Seq::new(self.images.len(), |i: int| TaskView::Waiting),
            results: Seq::empty(),
        }
    }

    /// The run after a move of transfer `i`. It starts, as by
    /// `Migrator::migrate_image`, or it performs its next action, which may mark
    /// an image, as by `Migrator::mark_completed`, and reports how that went, as
    /// to `Transfer::report`.
    pub open spec fn moved(self, run: RunView, i: int, now: Timestamp) -> RunView {
        match run.tasks[i] {
            TaskView::Waiting => RunView {
                tasks: run.tasks.update(
                    i,
                    TaskView::Running { script: self.script(i, run.state.completed), position: 0 },
                ),
                ..run
            },
            TaskView::Running { script, position } => {
                let action = script[position as int];
                let state = match action {
                    ActionView::MarkCompleted { image_ref } => run.state.completing(image_ref, now),
                    _ => run.state,
                };
                match progress(script, position, (self.outcome)(i, position as int)) {
                    ProgressView::Continue => RunView {
                        state,
                        tasks: run.tasks.update(
                            i,
                            TaskView::Running { script, position: position + 1 },
                        ),
                        ..run
                    },
                    ProgressView::Finished { error } => RunView {
                        state,
                        tasks: run.tasks.update(i, TaskView::Ended),
                        results: run.results.push((self.images[i], error)),
                    },
                }
            },
            TaskView::Ended => run,
        }
    }

    /// The run after these moves.
    pub open spec fn after(self, state: StateView, moves: Seq<MoveView>) -> RunView
        decreases moves.len(),
    {
        if moves.len() == 0 {
            self.start(state)
        } else {
            self.moved(self.after(state, moves.drop_last()), moves.last().0, moves.last().1)
        }
    }

    /// Whether these are moves of a run with at most `limit` transfers under
    /// way at once.
    pub open spec fn allows(self, state: StateView, moves: Seq<MoveView>, limit: nat) -> bool
        decreases moves.len(),
    {
        moves.len() > 0 ==> {
            &&& self.allows(state, moves.drop_last(), limit)
            &&& self.after(state, moves.drop_last()).may_move(moves.last().0, limit)
        }
    }

    /// Whether these are all the moves of such a run, from its beginning to its
    /// end.
    pub open spec fn completes(self, state: StateView, moves: Seq<MoveView>, limit: nat) -> bool {
        self.allows(state, moves, limit) && self.after(state, moves).is_over()
    }

    /// The state after the run, once its failures are recorded at `now`, as by
    /// `Migrator::finish_run`.
    pub open spec fn end(
        self,
        state: StateView,
        moves: Seq<MoveView>,
        now: Timestamp,
    ) -> StateView {
        let run = self.after(state, moves);
        run.state.recording(failures_of(run.results), now)
    }

    /// What a transfer of image `i` does in any run that found `completed`: it
    /// skips the image, which is completed by then, or it does what it would
    /// have done at the beginning of the run.
    spec fn any_task_wf(self, completed: Set<Seq<char>>, run: RunView, i: int) -> bool {
        let image_ref = self.images[i].image_ref();
        match run.tasks[i] {
            TaskView::Running { script, position } => {
                &&& position < script.len()
                &&& {
                    ||| run.state.completed.contains(image_ref) && script == self.script(
                        i,
                        run.state.completed,
                    )
                    ||| !completed.contains(image_ref) && script == self.script(i, completed)
                }
            },
            _ => true,
        }
    }

    /// What holds all through any run that found `state`, whether or not the
    /// references of its images are different.
    spec fn any_run_wf(self, state: StateView, run: RunView) -> bool {
        &&& run.tasks.len() == self.images.len()
        &&& run.state.failed == state.failed
        &&& run.state.started_at == state.started_at
        &&& run.state.total_images == state.beginning(self.images.len()).total_images
        &&& state.completed.subset_of(run.state.completed)
        &&& forall|x: Seq<char>| #[trigger]
            run.state.completed.contains(x) ==> state.completed.contains(x)
                || self.refs().contains(x)
        &&& forall|i: int|
            0 <= i < self.images.len() ==> #[trigger] self.any_task_wf(state.completed, run, i)
        &&& result_images(run.results).to_multiset() == ended_images(self.images, run.tasks)
    }

    /// Whether image `i` is completed, has failed or still has its mark before
    /// it.
    spec fn is_accounted_for(self, run: RunView, i: int) -> bool {
        ||| run.state.completed.contains(self.images[i].image_ref())
        ||| match run.tasks[i] {
            TaskView::Waiting => true,
            TaskView::Running { position, .. } => position <= 7,
            TaskView::Ended => exists|error: Seq<char>| #[trigger]
                run.results.contains((self.images[i], Some(error))),
        }
    }

    /// What holds all through a run that does nothing: nothing is marked, and
    /// where `quiet`, nothing fails.
    spec fn idle_run_wf(self, state: StateView, run: RunView, quiet: bool) -> bool {
        let completed = state.completed;
        &&& run.tasks.len() == self.images.len()
        &&& run.state == state.beginning(self.images.len())
        &&& forall|i: int|
            0 <= i < self.images.len() ==> match #[trigger] run.tasks[i] {
                TaskView::Running { script, position } => {
                    &&& script == self.script(i, completed)
                    &&& position < script.len()
                },
                _ => true,
            }
        &&& quiet ==> forall|p: int|
            0 <= p < run.results.len() ==> (#[trigger] run.results[p]).1 is None
    }

    /// What holds of the transfer of image `i` and of its reference all through
    /// a run that found `completed`, the references of its images being
    /// different.
    spec fn task_wf(self, completed: Set<Seq<char>>, run: RunView, i: int) -> bool {
        let script = self.script(i, completed);
        let outcomes = self.outcomes(i);
        let image_ref = self.images[i].image_ref();
        let before = completed.contains(image_ref);
        let marked = run.state.completed.contains(image_ref);
        match run.tasks[i] {
            TaskView::Waiting => marked == before,
            TaskView::Running { script: s, position } => {
                &&& s == script
                &&& position < script.len()
                &&& error_from(script, outcomes, position) == self.error(i, completed)
                &&& (marked || marks_from(script, outcomes, position)) == (before || self.marks(
                    i,
                    completed,
                ))
            },
            TaskView::Ended => marked == (before || self.marks(i, completed)),
        }
    }

    /// Whether `result` is that of the transfer of image `i`.
    spec fn is_result(self, completed: Set<Seq<char>>, result: ResultView, i: int) -> bool {
        0 <= i < self.images.len() && result == (self.images[i], self.error(i, completed))
    }

    /// What holds all through a run that found `state`, the references of its
    /// images being different.
    spec fn run_wf(self, state: StateView, run: RunView) -> bool {
        let completed = state.completed;
        &&& run.tasks.len() == self.images.len()
        &&& run.state.failed == state.failed
        &&& run.state.started_at == state.started_at
        &&& run.state.total_images == state.beginning(self.images.len()).total_images
        &&& forall|i: int| 0 <= i < self.images.len() ==> #[trigger] self.task_wf(completed, run, i)
        &&& forall|x: Seq<char>|
            !self.refs().contains(x) ==> (#[trigger] run.state.completed.contains(x)
                == completed.contains(x))
        &&& run.results.no_duplicates()
        &&& forall|r: ResultView| #[trigger]
            run.results.contains(r) ==> exists|i: int|
                #![trigger self.is_result(completed, r, i)]
                self.is_result(completed, r, i) && run.tasks[i] is Ended
        &&& forall|i: int|
            0 <= i < self.images.len() && (#[trigger] run.tasks[i]) is Ended
                ==> run.results.contains((self.images[i], self.error(i, completed)))
    }
}

/// A transfer marks no image but its own.
proof fn lemma_marks_own_image(plan: PlanView, i: int, completed: Set<Seq<char>>, k: int)
    requires
        0 <= k < plan.script(i, completed).len(),
        plan.script(i, completed)[k] is MarkCompleted,
    ensures
        plan.script(i, completed)[k] == (ActionView::MarkCompleted {
            image_ref: plan.images[i].image_ref(),
        }),
{
    assert(k == 7);
}

/// What holds all through a run holds before its first move.
proof fn lemma_start(plan: PlanView, state: StateView)
    ensures
        plan.run_wf(state, plan.start(state)),
{
}

/// Two images of the same reference are one.
proof fn lemma_same_ref(plan: PlanView, i: int, j: int)
    requires
        plan.distinct(),
        0 <= i < plan.images.len(),
        0 <= j < plan.images.len(),
        plan.images[i].image_ref() == plan.images[j].image_ref(),
    ensures
        i == j,
{
    if i < j {
        assert(plan.images[i].image_ref() != plan.images[j].image_ref());
    } else if j < i {
        assert(plan.images[j].image_ref() != plan.images[i].image_ref());
    }
}

/// A move changes what is completed by the transfer's own image at most.
proof fn lemma_moved_state(
    plan: PlanView,
    state: StateView,
    run: RunView,
    i: int,
    now: Timestamp,
)
    requires
        plan.run_wf(state, run),
        0 <= i < run.tasks.len(),
    ensures
        ({
            let next = plan.moved(run, i, now);
            &&& next.tasks.len() == run.tasks.len()
            &&& next.state.failed == run.state.failed
            &&& next.state.started_at == run.state.started_at
            &&& next.state.total_images == run.state.total_images
            &&& forall|x: Seq<char>|
                x != plan.images[i].image_ref() ==> (#[trigger] next.state.completed.contains(x)
                    == run.state.completed.contains(x))
        }),
{
    assert(plan.task_wf(state.completed, run, i));
    match run.tasks[i] {
        TaskView::Running { script, position } => {
            if script[position as int] is MarkCompleted {
                lemma_marks_own_image(plan, i, state.completed, position as int);
            }
        },
        _ => {},
    }
}

/// What holds of a transfer holds of it after its move.
proof fn lemma_moved_task(
    plan: PlanView,
    state: StateView,
    run: RunView,
    i: int,
    now: Timestamp,
)
    requires
        plan.run_wf(state, run),
        0 <= i < run.tasks.len(),
        run.tasks[i] !is Ended,
    ensures
        plan.task_wf(state.completed, plan.moved(run, i, now), i),
        plan.moved(run, i, now).tasks[i] is Ended ==> plan.moved(run, i, now).results
            == run.results.push((plan.images[i], plan.error(i, state.completed))),
        plan.moved(run, i, now).tasks[i] !is Ended ==> plan.moved(run, i, now).results
            == run.results,
{
    let completed = state.completed;
    let outcomes = plan.outcomes(i);
    assert(plan.task_wf(completed, run, i));
    match run.tasks[i] {
        TaskView::Running { script, position } => {
            let next = (position + 1) as nat;
            assert(error_from(script, outcomes, next) is None || next < script.len());
            assert(!marks_from(script, outcomes, next) || next < script.len());
            if script[position as int] is MarkCompleted {
                lemma_marks_own_image(plan, i, completed, position as int);
            }
        },
        _ => {
            assert(plan.script(i, run.state.completed) == plan.script(i, completed));
            assert(plan.script(i, completed).len() > 0);
        },
    }
}

/// What holds all through a run holds after each move.
proof fn lemma_moved(
    plan: PlanView,
    state: StateView,
    run: RunView,
    i: int,
    limit: nat,
    now: Timestamp,
)
    requires
        plan.distinct(),
        plan.run_wf(state, run),
        run.may_move(i, limit),
    ensures
        plan.run_wf(state, plan.moved(run, i, now)),
{
    let completed = state.completed;
    let next = plan.moved(run, i, now);
    lemma_moved_state(plan, state, run, i, now);
    lemma_moved_task(plan, state, run, i, now);
    assert forall|j: int| 0 <= j < plan.images.len() implies #[trigger] plan.task_wf(
        completed,
        next,
        j,
    ) by {
        if j != i {
            assert(plan.task_wf(completed, run, j));
            if plan.images[j].image_ref() == plan.images[i].image_ref() {
                lemma_same_ref(plan, i, j);
            }
            assert(next.tasks[j] == run.tasks[j]);
        }
    }
    assert(plan.refs()[i] == plan.images[i].image_ref());
    let result = (plan.images[i], plan.error(i, completed));
    if run.results.contains(result) {
        let j = choose|j: int|
            #![trigger plan.is_result(completed, result, j)]
            plan.is_result(completed, result, j) && run.tasks[j] is Ended;
        lemma_same_ref(plan, i, j);
        assert(false);
    }
    if next.tasks[i] is Ended {
        assert forall|r: ResultView| #[trigger] next.results.contains(r) implies exists|j: int|
            #![trigger plan.is_result(completed, r, j)]
            plan.is_result(completed, r, j) && next.tasks[j] is Ended by {
            let p = choose|p: int| 0 <= p < next.results.len() && next.results[p] == r;
            if p < run.results.len() {
                assert(run.results[p] == r);
                assert(run.results.contains(r));
                let j = choose|j: int|
                    #![trigger plan.is_result(completed, r, j)]
                    plan.is_result(completed, r, j) && run.tasks[j] is Ended;
                assert(plan.is_result(completed, r, j) && next.tasks[j] is Ended);
            } else {
                assert(plan.is_result(completed, r, i) && next.tasks[i] is Ended);
            }
        }
        assert forall|j: int|
            0 <= j < plan.images.len() && (
            #[trigger] next.tasks[j]) is Ended implies next.results.contains(
            (plan.images[j], plan.error(j, completed)),
        ) by {
            if j == i {
                assert(next.results[run.results.len() as int] == result);
            } else {
                let r = (plan.images[j], plan.error(j, completed));
                assert(run.tasks[j] is Ended);
                assert(run.results.contains(r));
                let p = choose|p: int| 0 <= p < run.results.len() && run.results[p] == r;
                assert(next.results[p] == r);
            }
        }
        assert(next.results.no_duplicates());
    } else {
        assert forall|r: ResultView| #[trigger] next.results.contains(r) implies exists|j: int|
            #![trigger plan.is_result(completed, r, j)]
            plan.is_result(completed, r, j) && next.tasks[j] is Ended by {
            let j = choose|j: int|
                #![trigger plan.is_result(completed, r, j)]
                plan.is_result(completed, r, j) && run.tasks[j] is Ended;
            assert(plan.is_result(completed, r, j) && next.tasks[j] is Ended);
        }
        assert forall|j: int|
            0 <= j < plan.images.len() && (
            #[trigger] next.tasks[j]) is Ended implies next.results.contains(
            (plan.images[j], plan.error(j, completed)),
        ) by {
            assert(run.tasks[j] is Ended);
        }
    }
}

/// What holds all through a run holds after any number of moves.
proof fn lemma_after(plan: PlanView, state: StateView, moves: Seq<MoveView>, limit: nat)
    requires
        plan.distinct(),
        plan.allows(state, moves, limit),
    ensures
        plan.run_wf(state, plan.after(state, moves)),
    decreases moves.len(),
{
    if moves.len() == 0 {
        lemma_start(plan, state);
    } else {
        lemma_after(plan, state, moves.drop_last(), limit);
        lemma_moved(
            plan,
            state,
            plan.after(state, moves.drop_last()),
            moves.last().0,
            limit,
            moves.last().1,
        );
    }
}

/// Where no transfer is over, there are no images of such.
proof fn lemma_none_ended(images: Seq<ImageView>, tasks: Seq<TaskView>)
    requires
        images.len() == tasks.len(),
        forall|i: int| 0 <= i < tasks.len() ==> (#[trigger] tasks[i]) !is Ended,
    ensures
        ended_images(images, tasks) == Multiset::<ImageView>::empty(),
    decreases tasks.len(),
{
    if tasks.len() > 0 {
        let rest = tasks.drop_last();
        assert forall|i: int| 0 <= i < rest.len() implies (#[trigger] rest[i]) !is Ended by {
            assert(rest[i] == tasks[i]);
        }
        lemma_none_ended(images.drop_last(), rest);
    }
}

/// Where every transfer is over, the images of such are all images.
proof fn lemma_all_ended(images: Seq<ImageView>, tasks: Seq<TaskView>)
    requires
        images.len() == tasks.len(),
        forall|i: int| 0 <= i < tasks.len() ==> (#[trigger] tasks[i]) is Ended,
    ensures
        ended_images(images, tasks) == images.to_multiset(),
    decreases tasks.len(),
{
    broadcast use vstd::seq_lib::group_to_multiset_ensures;

    if tasks.len() > 0 {
        let rest = tasks.drop_last();
        assert forall|i: int| 0 <= i < rest.len() implies (#[trigger] rest[i]) is Ended by {
            assert(rest[i] == tasks[i]);
        }
        lemma_all_ended(images.drop_last(), rest);
        assert(images =~= images.drop_last().push(images.last()));
    } else {
        assert(images =~= Seq::empty());
        assert(images.to_multiset() =~= Multiset::empty());
    }
}

/// Where one transfer changes that is not over, its image is added if it is
/// over then.
proof fn lemma_ended_update(images: Seq<ImageView>, tasks: Seq<TaskView>, i: int, task: TaskView)
    requires
        images.len() == tasks.len(),
        0 <= i < tasks.len(),
        tasks[i] !is Ended,
    ensures
        ended_images(images, tasks.update(i, task)) == if task is Ended {
            ended_images(images, tasks).insert(images[i])
        } else {
            ended_images(images, tasks)
        },
    decreases tasks.len(),
{
    let updated = tasks.update(i, task);
    if i == tasks.len() - 1 {
        assert(updated.drop_last() =~= tasks.drop_last());
    } else {
        lemma_ended_update(images.drop_last(), tasks.drop_last(), i, task);
        assert(updated.drop_last() =~= tasks.drop_last().update(i, task));
        assert(ended_images(images, updated) =~= if task is Ended {
            ended_images(images, tasks).insert(images[i])
        } else {
            ended_images(images, tasks)
        });
    }
}

/// What holds all through any run holds after each move.
proof fn lemma_any_moved(
    plan: PlanView,
    state: StateView,
    run: RunView,
    i: int,
    limit: nat,
    now: Timestamp,
)
    requires
        plan.any_run_wf(state, run),
        run.may_move(i, limit),
    ensures
        plan.any_run_wf(state, plan.moved(run, i, now)),
        run.state.completed.subset_of(plan.moved(run, i, now).state.completed),
        forall|r: ResultView|
            run.results.contains(r) ==> #[trigger] plan.moved(run, i, now).results.contains(r),
{
    broadcast use vstd::seq_lib::group_to_multiset_ensures;

    let completed = state.completed;
    let next = plan.moved(run, i, now);
    let image_ref = plan.images[i].image_ref();
    assert(plan.any_task_wf(completed, run, i));
    assert(plan.refs()[i] == image_ref);
    match run.tasks[i] {
        TaskView::Running { script, position } => {
            if script[position as int] is MarkCompleted {
                if !completed.contains(image_ref) && script == plan.script(i, completed) {
                    lemma_marks_own_image(plan, i, completed, position as int);
                } else {
                    lemma_marks_own_image(plan, i, run.state.completed, position as int);
                }
            }
        },
        _ => {
            assert(plan.script(i, run.state.completed).len() > 0);
            if !run.state.completed.contains(image_ref) {
                assert(plan.script(i, run.state.completed) == plan.script(i, completed));
            }
        },
    }
    assert forall|j: int| 0 <= j < plan.images.len() implies #[trigger] plan.any_task_wf(
        completed,
        next,
        j,
    ) by {
        assert(plan.any_task_wf(completed, run, j));
        let other_ref = plan.images[j].image_ref();
        if run.state.completed.contains(other_ref) {
            assert(plan.script(j, next.state.completed) == plan.script(j, run.state.completed));
        }
    }
    lemma_ended_update(plan.images, run.tasks, i, next.tasks[i]);
    assert(next.tasks == run.tasks.update(i, next.tasks[i]));
    if next.tasks[i] is Ended {
        assert(result_images(next.results) =~= result_images(run.results).push(plan.images[i]));
        assert forall|r: ResultView|
            run.results.contains(r) implies #[trigger] next.results.contains(r) by {
            let p = choose|p: int| 0 <= p < run.results.len() && run.results[p] == r;
            assert(next.results[p] == r);
        }
    }
}

/// What holds all through any run holds after any number of moves.
proof fn lemma_any_after(plan: PlanView, state: StateView, moves: Seq<MoveView>, limit: nat)
    requires
        plan.allows(state, moves, limit),
    ensures
        plan.any_run_wf(state, plan.after(state, moves)),
    decreases moves.len(),
{
    broadcast use vstd::seq_lib::group_to_multiset_ensures;

    if moves.len() == 0 {
        let run = plan.start(state);
        lemma_none_ended(plan.images, run.tasks);
        assert(result_images(run.results) =~= Seq::empty());
        assert(result_images(run.results).to_multiset() =~= Multiset::empty());
    } else {
        lemma_any_after(plan, state, moves.drop_last(), limit);
        lemma_any_moved(
            plan,
            state,
            plan.after(state, moves.drop_last()),
            moves.last().0,
            limit,
            moves.last().1,
        );
    }
}

/// What any run keeps, and what it answers for, also where two of its images
/// have the same reference. What was completed stays completed, and only images
/// of the run join it. The failures of the run are added to the ones that were
/// there, and only images of the run are among them. The images are counted,
/// and the time at which the migration began stays. Once the run is over, there
/// is one result for each image.
pub proof fn law_records_of_any_run(
    plan: PlanView,
    state: StateView,
    moves: Seq<MoveView>,
    limit: nat,
    now: Timestamp,
)
    requires
        plan.allows(state, moves, limit),
    ensures
        ({
            let run = plan.after(state, moves);
            let end = plan.end(state, moves, now);
            let failures = failures_of(run.results);
            &&& state.completed.subset_of(end.completed)
            &&& end.completed.subset_of(state.completed.union(plan.refs().to_set()))
            &&& end.failed == state.failed + failures
            &&& failed_refs(failures).subset_of(plan.refs().to_set())
            &&& end.total_images == state.beginning(plan.images.len()).total_images
            &&& end.started_at == state.started_at
            &&& run.is_over() ==> result_images(run.results).to_multiset()
                == plan.images.to_multiset()
        }),
{
    broadcast use vstd::seq_lib::group_to_multiset_ensures;

    let run = plan.after(state, moves);
    let end = plan.end(state, moves, now);
    let failures = failures_of(run.results);
    let refs = failures.map_values(|f: (Seq<char>, Seq<char>)| f.0);
    lemma_any_after(plan, state, moves, limit);
    if run.is_over() {
        lemma_all_ended(plan.images, run.tasks);
    }
    assert forall|x: Seq<char>| failed_refs(failures).contains(x) implies plan.refs().contains(
        x,
    ) by {
        let j = choose|j: int| 0 <= j < refs.len() && refs[j] == x;
        assert(failures[j] == (x, failures[j].1));
        law_exactly_the_failures_are_recorded(run.results, x, failures[j].1);
        let p = choose|p: int|
            0 <= p < run.results.len() && (#[trigger] run.results[p]).0.image_ref() == x
                && run.results[p].1 == Some(failures[j].1);
        let image = run.results[p].0;
        assert(result_images(run.results)[p] == image);
        assert(result_images(run.results).contains(image));
        assert(ended_images(plan.images, run.tasks).contains(image));
        lemma_ended_are_images(plan.images, run.tasks, image);
        let i = choose|i: int| 0 <= i < plan.images.len() && plan.images[i] == image;
        assert(plan.refs()[i] == x);
    }
}

/// The images whose transfers are over are images of the run.
proof fn lemma_ended_are_images(images: Seq<ImageView>, tasks: Seq<TaskView>, image: ImageView)
    requires
        images.len() == tasks.len(),
        ended_images(images, tasks).contains(image),
    ensures
        images.contains(image),
    decreases tasks.len(),
{
    if tasks.len() > 0 {
        let rest = images.drop_last();
        if ended_images(rest, tasks.drop_last()).contains(image) {
            lemma_ended_are_images(rest, tasks.drop_last(), image);
            let i = choose|i: int| 0 <= i < rest.len() && rest[i] == image;
            assert(images[i] == image);
        } else {
            assert(images[images.len() - 1] == image);
        }
    }
}

/// Two lists without duplicates that hold the same are permutations of each
/// other.
proof fn lemma_same_contents(a: Seq<ResultView>, b: Seq<ResultView>)
    requires
        a.no_duplicates(),
        b.no_duplicates(),
        forall|r: ResultView| #[trigger] a.contains(r) <==> b.contains(r),
    ensures
        a.to_multiset() == b.to_multiset(),
{
    broadcast use vstd::seq_lib::group_to_multiset_ensures;

    a.lemma_multiset_has_no_duplicates();
    b.lemma_multiset_has_no_duplicates();
    assert forall|r: ResultView| a.to_multiset().count(r) == b.to_multiset().count(r) by {
        assert(a.contains(r) <==> a.to_multiset().count(r) > 0);
        assert(b.contains(r) <==> b.to_multiset().count(r) > 0);
        if a.contains(r) {
            assert(a.to_multiset().contains(r) && b.to_multiset().contains(r));
        }
    }
    assert(a.to_multiset() =~= b.to_multiset());
}

/// What a run comes to is settled by what it found and by how its actions go,
/// and not by the order in which its transfers get their turns. In the end the
/// images are completed that were so before and those whose transfers mark
/// them, the results are those of the transfers, in some order, and the
/// failures among them are added to the ones that were there.
pub proof fn law_end_of_a_run(
    plan: PlanView,
    state: StateView,
    moves: Seq<MoveView>,
    limit: nat,
    now: Timestamp,
)
    requires
        plan.distinct(),
        plan.completes(state, moves, limit),
    ensures
        ({
            let run = plan.after(state, moves);
            let end = plan.end(state, moves, now);
            &&& forall|x: Seq<char>| #[trigger]
                end.completed.contains(x) <==> state.completed.contains(x) || exists|i: int|
                    0 <= i < plan.images.len() && (#[trigger] plan.images[i]).image_ref() == x
                        && plan.marks(i, state.completed)
            &&& run.results.to_multiset() == plan.results(state.completed).to_multiset()
            &&& end.failed == state.failed + failures_of(run.results)
            &&& end.total_images == state.beginning(plan.images.len()).total_images
            &&& end.started_at == state.started_at
        }),
{
    let completed = state.completed;
    let run = plan.after(state, moves);
    let end = plan.end(state, moves, now);
    let results = plan.results(completed);
    lemma_after(plan, state, moves, limit);
    assert(end.failed =~= state.failed + failures_of(run.results));
    assert forall|x: Seq<char>| #[trigger]
        end.completed.contains(x) <==> completed.contains(x) || exists|i: int|
            0 <= i < plan.images.len() && (#[trigger] plan.images[i]).image_ref() == x
                && plan.marks(i, completed) by {
        assert(run.state.completed.contains(x) == end.completed.contains(x));
        if plan.refs().contains(x) {
            let i = choose|i: int| 0 <= i < plan.refs().len() && plan.refs()[i] == x;
            assert(plan.images[i].image_ref() == x);
            assert(run.tasks[i] is Ended);
            assert(plan.task_wf(completed, run, i));
            if exists|j: int|
                0 <= j < plan.images.len() && (#[trigger] plan.images[j]).image_ref() == x
                    && plan.marks(j, completed) {
                let j = choose|j: int|
                    0 <= j < plan.images.len() && (#[trigger] plan.images[j]).image_ref() == x
                        && plan.marks(j, completed);
                lemma_same_ref(plan, i, j);
            }
        } else {
            assert forall|i: int| 0 <= i < plan.images.len() implies (
            #[trigger] plan.images[i]).image_ref() != x by {
                assert(plan.refs()[i] == plan.images[i].image_ref());
            }
        }
    }
    assert(results.no_duplicates()) by {
        assert forall|i: int, j: int|
            0 <= i < results.len() && 0 <= j < results.len() && i != j implies results[i]
            != results[j] by {
            if results[i] == results[j] {
                lemma_same_ref(plan, i, j);
            }
        }
    }
    assert forall|r: ResultView| #[trigger] run.results.contains(r) <==> results.contains(r) by {
        if run.results.contains(r) {
            let i = choose|i: int|
                #![trigger plan.is_result(completed, r, i)]
                plan.is_result(completed, r, i) && run.tasks[i] is Ended;
            assert(results[i] == r);
        }
        if results.contains(r) {
            let i = choose|i: int| 0 <= i < results.len() && results[i] == r;
            assert(run.tasks[i] is Ended);
        }
    }
    lemma_same_contents(run.results, results);
}

/// How many transfers run side by side, and which of them is faster, changes
/// nothing but the order of the failures and the time: of two runs from one
/// state over the same images, whose actions go the same way, both end with
/// the same images completed, the same count of images, and the same failures
/// in some order.
pub proof fn law_concurrency_does_not_matter(
    plan: PlanView,
    state: StateView,
    moves: Seq<MoveView>,
    limit: nat,
    now: Timestamp,
    other_moves: Seq<MoveView>,
    other_limit: nat,
    other_now: Timestamp,
)
    requires
        plan.distinct(),
        plan.completes(state, moves, limit),
        plan.completes(state, other_moves, other_limit),
    ensures
        ({
            let end = plan.end(state, moves, now);
            let other_end = plan.end(state, other_moves, other_now);
            &&& end.completed == other_end.completed
            &&& end.total_images == other_end.total_images
            &&& end.started_at == other_end.started_at
            &&& end.failed.to_multiset() == other_end.failed.to_multiset()
        }),
{
    let end = plan.end(state, moves, now);
    let other_end = plan.end(state, other_moves, other_now);
    law_end_of_a_run(plan, state, moves, limit, now);
    law_end_of_a_run(plan, state, other_moves, other_limit, other_now);
    assert forall|x: Seq<char>| end.completed.contains(x) == other_end.completed.contains(x) by {
    }
    assert(end.completed =~= other_end.completed);
    let results = plan.after(state, moves).results;
    let other_results = plan.after(state, other_moves).results;
    law_order_of_results_does_not_matter(results, other_results);
    vstd::seq_lib::lemma_multiset_commutative(state.failed, failures_of(results));
    vstd::seq_lib::lemma_multiset_commutative(state.failed, failures_of(other_results));
}

/// A transfer that is no dry run and whose saves go well meets no error exactly
/// if it marks its image, from any place before the mark on.
proof fn lemma_no_error_or_no_mark(
    plan: PlanView,
    i: int,
    completed: Set<Seq<char>>,
    position: nat,
)
    requires
        0 <= i < plan.images.len(),
        !plan.route.dry_run,
        !completed.contains(plan.images[i].image_ref()),
        plan.saves_go_well(completed),
        position <= 7,
    ensures
        error_from(plan.script(i, completed), plan.outcomes(i), position) is None <==> marks_from(
            plan.script(i, completed),
            plan.outcomes(i),
            position,
        ),
    decreases 7 - position,
{
    let script = plan.script(i, completed);
    let outcomes = plan.outcomes(i);
    assert(script.len() == 10);
    if position == 7 {
        assert(script[7] is MarkCompleted);
        assert(failure(script[7], outcomes(7)) is None);
        assert(failure(script[8], outcomes(8)) is None);
        assert(failure(script[9], outcomes(9)) is None);
        assert(error_from(script, outcomes, 10) is None);
        assert(error_from(script, outcomes, 9) is None);
        assert(error_from(script, outcomes, 8) is None);
    } else {
        lemma_no_error_or_no_mark(plan, i, completed, position + 1);
        assert(script[position as int] !is MarkCompleted);
    }
}

/// A transfer without docker commands, whose saves go well, meets no error and
/// marks nothing.
proof fn lemma_only_telling(plan: PlanView, i: int, completed: Set<Seq<char>>)
    requires
        0 <= i < plan.images.len(),
        plan.route.dry_run || completed.contains(plan.images[i].image_ref()),
        plan.saves_go_well(completed),
    ensures
        plan.error(i, completed) is None,
        !plan.marks(i, completed),
{
    let script = plan.script(i, completed);
    let outcomes = plan.outcomes(i);
    assert(script.len() <= 2);
    assert forall|k: int| 0 <= k < script.len() implies failure(
        #[trigger] script[k],
        outcomes(k),
    ) is None && script[k] !is MarkCompleted by {
        assert(script[k] !is Docker);
    }
    assert(error_from(script, outcomes, 2) is None);
    assert(!marks_from(script, outcomes, 2));
    assert(error_from(script, outcomes, 1) is None);
    assert(!marks_from(script, outcomes, 1));
}

/// The references of results without an error.
spec fn done_refs(results: Seq<ResultView>) -> Set<Seq<char>>
    decreases results.len(),
{
    if results.len() == 0 {
        Set::empty()
    } else if results.last().1 is None {
        done_refs(results.drop_last()).insert(results.last().0.image_ref())
    } else {
        done_refs(results.drop_last())
    }
}

/// Of results with different references each is a failure or not, so the two
/// kinds add up.
proof fn lemma_results_add_up(results: Seq<ResultView>)
    requires
        forall|i: int, j: int|
            0 <= i < j < results.len() ==> (#[trigger] results[i]).0.image_ref() != (
            #[trigger] results[j]).0.image_ref(),
    ensures
        done_refs(results).finite(),
        done_refs(results).len() + failures_of(results).len() == results.len(),
        forall|x: Seq<char>| #[trigger]
            done_refs(results).contains(x) <==> exists|i: int|
                0 <= i < results.len() && (#[trigger] results[i]).0.image_ref() == x
                    && results[i].1 is None,
    decreases results.len(),
{
    if results.len() > 0 {
        let rest = results.drop_last();
        let last = results.last();
        assert forall|i: int, j: int| 0 <= i < j < rest.len() implies (
        #[trigger] rest[i]).0.image_ref() != (#[trigger] rest[j]).0.image_ref() by {
            assert(rest[i] == results[i] && rest[j] == results[j]);
        }
        lemma_results_add_up(rest);
        if done_refs(rest).contains(last.0.image_ref()) {
            let i = choose|i: int|
                0 <= i < rest.len() && (#[trigger] rest[i]).0.image_ref() == last.0.image_ref()
                    && rest[i].1 is None;
            assert(results[i] == rest[i] && results[results.len() - 1] == last);
            assert(false);
        }
        assert forall|x: Seq<char>| #[trigger]
            done_refs(results).contains(x) <==> exists|i: int|
                0 <= i < results.len() && (#[trigger] results[i]).0.image_ref() == x
                    && results[i].1 is None by {
            if done_refs(rest).contains(x) {
                let i = choose|i: int|
                    0 <= i < rest.len() && (#[trigger] rest[i]).0.image_ref() == x
                        && rest[i].1 is None;
                assert(results[i] == rest[i]);
            }
            if exists|i: int|
                0 <= i < results.len() && (#[trigger] results[i]).0.image_ref() == x
                    && results[i].1 is None {
                let i = choose|i: int|
                    0 <= i < results.len() && (#[trigger] results[i]).0.image_ref() == x
                        && results[i].1 is None;
                if i < rest.len() {
                    assert(rest[i] == results[i]);
                }
            }
            assert(results[results.len() - 1] == last);
        }
    }
}

/// An image is among the failures of a run exactly if its transfer met an
/// error.
proof fn lemma_failed_refs(
    plan: PlanView,
    state: StateView,
    moves: Seq<MoveView>,
    limit: nat,
    x: Seq<char>,
)
    requires
        plan.distinct(),
        plan.completes(state, moves, limit),
    ensures
        failed_refs(failures_of(plan.after(state, moves).results)).contains(x) <==> exists|i: int|
            0 <= i < plan.images.len() && (#[trigger] plan.images[i]).image_ref() == x
                && plan.error(i, state.completed) is Some,
{
    let completed = state.completed;
    let run = plan.after(state, moves);
    let failures = failures_of(run.results);
    let refs = failures.map_values(|f: (Seq<char>, Seq<char>)| f.0);
    lemma_after(plan, state, moves, limit);
    if refs.contains(x) {
        let j = choose|j: int| 0 <= j < refs.len() && refs[j] == x;
        let error = failures[j].1;
        assert(failures.contains((x, error))) by {
            assert(failures[j] == (x, error));
        }
        law_exactly_the_failures_are_recorded(run.results, x, error);
        let p = choose|p: int|
            0 <= p < run.results.len() && (#[trigger] run.results[p]).0.image_ref() == x
                && run.results[p].1 == Some(error);
        assert(run.results.contains(run.results[p]));
        let i = choose|i: int|
            #![trigger plan.is_result(completed, run.results[p], i)]
            plan.is_result(completed, run.results[p], i) && run.tasks[i] is Ended;
        assert(plan.images[i].image_ref() == x && plan.error(i, completed) is Some);
    }
    if exists|i: int|
        0 <= i < plan.images.len() && (#[trigger] plan.images[i]).image_ref() == x && plan.error(
            i,
            completed,
        ) is Some {
        let i = choose|i: int|
            0 <= i < plan.images.len() && (#[trigger] plan.images[i]).image_ref() == x
                && plan.error(i, completed) is Some;
        let error = plan.error(i, completed)->0;
        assert(run.tasks[i] is Ended);
        let r = (plan.images[i], plan.error(i, completed));
        assert(run.results.contains(r));
        let p = choose|p: int| 0 <= p < run.results.len() && run.results[p] == r;
        assert(run.results[p].0.image_ref() == x && run.results[p].1 == Some(error));
        law_exactly_the_failures_are_recorded(run.results, x, error);
        let j = choose|j: int| 0 <= j < failures.len() && failures[j] == (x, error);
        assert(refs[j] == x);
    }
}

/// A run that is no dry run, and whose saves go well, leaves no image
/// unaccounted for.
proof fn lemma_all_accounted_for(
    plan: PlanView,
    state: StateView,
    moves: Seq<MoveView>,
    limit: nat,
)
    requires
        plan.allows(state, moves, limit),
        plan.saves_go_well(state.completed),
        !plan.route.dry_run,
    ensures
        forall|j: int|
            0 <= j < plan.images.len() ==> #[trigger] plan.is_accounted_for(
                plan.after(state, moves),
                j,
            ),
    decreases moves.len(),
{
    if moves.len() > 0 {
        let completed = state.completed;
        let run = plan.after(state, moves.drop_last());
        let next = plan.after(state, moves);
        let (i, now) = moves.last();
        lemma_all_accounted_for(plan, state, moves.drop_last(), limit);
        lemma_any_after(plan, state, moves.drop_last(), limit);
        lemma_any_moved(plan, state, run, i, limit, now);
        assert forall|j: int| 0 <= j < plan.images.len() implies #[trigger] plan.is_accounted_for(
            next,
            j,
        ) by {
            assert(plan.is_accounted_for(run, j));
            if !next.state.completed.contains(plan.images[j].image_ref()) {
                assert(!run.state.completed.contains(plan.images[j].image_ref()));
                if j == i {
                    lemma_account_of_move(plan, state, run, i, limit, now);
                } else if run.tasks[j] is Ended {
                    let error = choose|error: Seq<char>| #[trigger]
                        run.results.contains((plan.images[j], Some(error)));
                    assert(next.results.contains((plan.images[j], Some(error))));
                }
            }
        }
    }
}

/// An image that is accounted for stays so when its transfer makes a move.
proof fn lemma_account_of_move(
    plan: PlanView,
    state: StateView,
    run: RunView,
    i: int,
    limit: nat,
    now: Timestamp,
)
    requires
        plan.any_run_wf(state, run),
        run.may_move(i, limit),
        plan.saves_go_well(state.completed),
        !plan.route.dry_run,
        plan.is_accounted_for(run, i),
        !run.state.completed.contains(plan.images[i].image_ref()),
    ensures
        plan.is_accounted_for(plan.moved(run, i, now), i),
{
    let completed = state.completed;
    let next = plan.moved(run, i, now);
    assert(plan.any_task_wf(completed, run, i));
    match run.tasks[i] {
        TaskView::Running { script, position } => {
            assert(script == plan.script(i, completed));
            assert(script.len() == 10);
            if position == 7 {
                lemma_marks_own_image(plan, i, completed, 7);
            } else {
                match failure(script[position as int], (plan.outcome)(i, position as int)) {
                    Some(error) => {
                        let result = (plan.images[i], Some(error));
                        assert(next.results[run.results.len() as int] == result);
                        assert(next.results.contains(result));
                    },
                    None => {},
                }
            }
        },
        _ => {},
    }
}

/// A run that is no dry run, and whose saves go well, accounts for every image
/// of its own: in the end the image is completed, or it is among the failures
/// that the run has recorded.
pub proof fn law_every_image_is_completed_or_failed(
    plan: PlanView,
    state: StateView,
    moves: Seq<MoveView>,
    limit: nat,
    now: Timestamp,
)
    requires
        plan.completes(state, moves, limit),
        plan.saves_go_well(state.completed),
        !plan.route.dry_run,
    ensures
        ({
            let end = plan.end(state, moves, now);
            let failures = failures_of(plan.after(state, moves).results);
            forall|x: Seq<char>| #[trigger]
                plan.refs().contains(x) ==> end.completed.contains(x) || failed_refs(
                    failures,
                ).contains(x)
        }),
{
    let end = plan.end(state, moves, now);
    let run = plan.after(state, moves);
    let failures = failures_of(run.results);
    let refs = failures.map_values(|f: (Seq<char>, Seq<char>)| f.0);
    lemma_any_after(plan, state, moves, limit);
    lemma_all_accounted_for(plan, state, moves, limit);
    assert forall|x: Seq<char>| #[trigger]
        plan.refs().contains(x) implies end.completed.contains(x) || failed_refs(
        failures,
    ).contains(x) by {
        let i = choose|i: int| 0 <= i < plan.refs().len() && plan.refs()[i] == x;
        assert(plan.images[i].image_ref() == x);
        assert(plan.is_accounted_for(run, i));
        if !end.completed.contains(x) {
            assert(run.tasks[i] is Ended);
            let error = choose|error: Seq<char>| #[trigger]
                run.results.contains((plan.images[i], Some(error)));
            let p = choose|p: int|
                0 <= p < run.results.len() && run.results[p] == (plan.images[i], Some(error));
            assert(run.results[p].0.image_ref() == x && run.results[p].1 == Some(error));
            law_exactly_the_failures_are_recorded(run.results, x, error);
            let j = choose|j: int| 0 <= j < failures.len() && failures[j] == (x, error);
            assert(refs[j] == x);
        }
    }
}

/// No image is both completed in the end and among the failures that a run has
/// recorded, if its saves go well and the references of its images are
/// different.
pub proof fn law_no_image_is_completed_and_failed(
    plan: PlanView,
    state: StateView,
    moves: Seq<MoveView>,
    limit: nat,
    now: Timestamp,
)
    requires
        plan.distinct(),
        plan.completes(state, moves, limit),
        plan.saves_go_well(state.completed),
    ensures
        plan.end(state, moves, now).completed.disjoint(
            failed_refs(failures_of(plan.after(state, moves).results)),
        ),
{
    let completed = state.completed;
    let end = plan.end(state, moves, now);
    let failures = failures_of(plan.after(state, moves).results);
    law_end_of_a_run(plan, state, moves, limit, now);
    assert forall|x: Seq<char>| end.completed.contains(x) implies !failed_refs(
        failures,
    ).contains(x) by {
        lemma_failed_refs(plan, state, moves, limit, x);
        if failed_refs(failures).contains(x) {
            let i = choose|i: int|
                0 <= i < plan.images.len() && (#[trigger] plan.images[i]).image_ref() == x
                    && plan.error(i, completed) is Some;
            if plan.route.dry_run || completed.contains(x) {
                lemma_only_telling(plan, i, completed);
            } else {
                lemma_no_error_or_no_mark(plan, i, completed, 0);
                let j = choose|j: int|
                    0 <= j < plan.images.len() && (#[trigger] plan.images[j]).image_ref() == x
                        && plan.marks(j, completed);
                lemma_same_ref(plan, i, j);
            }
            assert(false);
        }
    }
}

/// The figures of a first run add up, that is of one that finds nothing
/// completed and nothing failed, if it is no dry run and its saves go well: the
/// completed and the failed images have no reference in common, together they
/// are the images of the run, and their numbers add up to the number of images,
/// which is the total unless there are none.
pub proof fn law_first_run_adds_up(
    plan: PlanView,
    state: StateView,
    moves: Seq<MoveView>,
    limit: nat,
    now: Timestamp,
)
    requires
        state.completed == Set::<Seq<char>>::empty(),
        state.failed == Seq::<(Seq<char>, Seq<char>)>::empty(),
        plan.distinct(),
        plan.completes(state, moves, limit),
        plan.saves_go_well(state.completed),
        !plan.route.dry_run,
    ensures
        ({
            let end = plan.end(state, moves, now);
            &&& end.completed.disjoint(failed_refs(end.failed))
            &&& end.completed.union(failed_refs(end.failed)) == plan.refs().to_set()
            &&& end.completed.len() + end.failed.len() == plan.images.len()
            &&& plan.images.len() > 0 ==> end.total_images == plan.images.len()
        }),
{
    broadcast use vstd::seq_lib::group_to_multiset_ensures;

    let completed = state.completed;
    let run = plan.after(state, moves);
    let end = plan.end(state, moves, now);
    law_end_of_a_run(plan, state, moves, limit, now);
    law_records_of_any_run(plan, state, moves, limit, now);
    law_every_image_is_completed_or_failed(plan, state, moves, limit, now);
    law_no_image_is_completed_and_failed(plan, state, moves, limit, now);
    assert(end.failed =~= failures_of(run.results));
    assert(end.completed.union(failed_refs(end.failed)) =~= plan.refs().to_set()) by {
        assert forall|x: Seq<char>|
            plan.refs().to_set().contains(x) implies end.completed.union(
            failed_refs(end.failed),
        ).contains(x) by {
            assert(plan.refs().contains(x));
        }
    }
    lemma_after(plan, state, moves, limit);
    assert(run.results.to_multiset().len() == run.results.len());
    assert(plan.results(completed).to_multiset().len() == plan.images.len());
    assert forall|p: int, q: int| 0 <= p < q < run.results.len() implies (
    #[trigger] run.results[p]).0.image_ref() != (#[trigger] run.results[q]).0.image_ref() by {
        assert(run.results.contains(run.results[p]) && run.results.contains(run.results[q]));
        let i = choose|i: int|
            #![trigger plan.is_result(completed, run.results[p], i)]
            plan.is_result(completed, run.results[p], i) && run.tasks[i] is Ended;
        let j = choose|j: int|
            #![trigger plan.is_result(completed, run.results[q], j)]
            plan.is_result(completed, run.results[q], j) && run.tasks[j] is Ended;
        if run.results[p].0.image_ref() == run.results[q].0.image_ref() {
            lemma_same_ref(plan, i, j);
            assert(run.results[p] == run.results[q]);
        }
    }
    lemma_results_add_up(run.results);
    assert(end.completed =~= done_refs(run.results)) by {
        assert forall|x: Seq<char>|
            end.completed.contains(x) == done_refs(run.results).contains(x) by {
            if end.completed.contains(x) {
                let i = choose|i: int|
                    0 <= i < plan.images.len() && (#[trigger] plan.images[i]).image_ref() == x
                        && plan.marks(i, completed);
                lemma_no_error_or_no_mark(plan, i, completed, 0);
                assert(run.tasks[i] is Ended);
                let r = (plan.images[i], plan.error(i, completed));
                let p = choose|p: int| 0 <= p < run.results.len() && run.results[p] == r;
                assert(run.results[p].0.image_ref() == x && run.results[p].1 is None);
            }
            if done_refs(run.results).contains(x) {
                let p = choose|p: int|
                    0 <= p < run.results.len() && (#[trigger] run.results[p]).0.image_ref() == x
                        && run.results[p].1 is None;
                assert(run.results.contains(run.results[p]));
                let i = choose|i: int|
                    #![trigger plan.is_result(completed, run.results[p], i)]
                    plan.is_result(completed, run.results[p], i) && run.tasks[i] is Ended;
                lemma_no_error_or_no_mark(plan, i, completed, 0);
                assert(plan.images[i].image_ref() == x && plan.marks(i, completed));
            }
        }
    }
}

/// The figures of a fresh run add up to the total, if it is no dry run and its
/// saves go well.
pub proof fn law_fresh_run_adds_up(
    plan: PlanView,
    began: Timestamp,
    moves: Seq<MoveView>,
    limit: nat,
    now: Timestamp,
)
    requires
        plan.distinct(),
        plan.completes(StateView::fresh(began), moves, limit),
        plan.saves_go_well(Set::empty()),
        !plan.route.dry_run,
    ensures
        ({
            let end = plan.end(StateView::fresh(began), moves, now);
            &&& end.completed.disjoint(failed_refs(end.failed))
            &&& end.completed.union(failed_refs(end.failed)) == plan.refs().to_set()
            &&& end.completed.len() + end.failed.len() == end.total_images
            &&& end.total_images == plan.images.len()
        }),
{
    law_first_run_adds_up(plan, StateView::fresh(began), moves, limit, now);
    law_records_of_any_run(plan, StateView::fresh(began), moves, limit, now);
}

/// A dry run completes no image. If what it shows is shown, none fails either,
/// and nothing changes but the total.
pub proof fn law_dry_run_records_nothing(
    plan: PlanView,
    state: StateView,
    moves: Seq<MoveView>,
    limit: nat,
    now: Timestamp,
)
    requires
        plan.allows(state, moves, limit),
        plan.route.dry_run,
    ensures
        plan.end(state, moves, now).completed == state.completed,
        plan.saves_go_well(state.completed) ==> plan.end(state, moves, now) == state.beginning(
            plan.images.len(),
        ),
{
    lemma_idle_run(plan, state, moves, limit, now);
}

/// A run over images that are all completed completes nothing more. If what it
/// shows is shown, none of them fails, and nothing changes but the total: to run
/// again after a run in which all went well does no harm.
pub proof fn law_rerun_records_nothing(
    plan: PlanView,
    state: StateView,
    moves: Seq<MoveView>,
    limit: nat,
    now: Timestamp,
)
    requires
        plan.allows(state, moves, limit),
        plan.refs().to_set().subset_of(state.completed),
    ensures
        plan.end(state, moves, now).completed == state.completed,
        plan.saves_go_well(state.completed) ==> plan.end(state, moves, now) == state.beginning(
            plan.images.len(),
        ),
{
    assert forall|i: int| 0 <= i < plan.images.len() implies state.completed.contains(
        (#[trigger] plan.images[i]).image_ref(),
    ) by {
        assert(plan.refs()[i] == plan.images[i].image_ref());
        assert(plan.refs().to_set().contains(plan.images[i].image_ref()));
    }
    lemma_idle_run(plan, state, moves, limit, now);
}

/// A run that is a dry run, or whose images are all completed, does nothing.
proof fn lemma_idle_after(plan: PlanView, state: StateView, moves: Seq<MoveView>, limit: nat)
    requires
        plan.allows(state, moves, limit),
        forall|i: int|
            0 <= i < plan.images.len() ==> plan.route.dry_run || state.completed.contains(
                (#[trigger] plan.images[i]).image_ref(),
            ),
    ensures
        plan.idle_run_wf(
            state,
            plan.after(state, moves),
            plan.saves_go_well(state.completed),
        ),
    decreases moves.len(),
{
    if moves.len() > 0 {
        let completed = state.completed;
        let run = plan.after(state, moves.drop_last());
        let next = plan.after(state, moves);
        let i = moves.last().0;
        lemma_idle_after(plan, state, moves.drop_last(), limit);
        let script = plan.script(i, completed);
        assert(plan.route.dry_run || completed.contains(plan.images[i].image_ref()));
        assert forall|k: int| 0 <= k < script.len() implies only_tells(#[trigger] script[k]) by {
        }
        if plan.saves_go_well(completed) {
            assert forall|k: int| 0 <= k < script.len() implies failure(
                #[trigger] script[k],
                (plan.outcome)(i, k),
            ) is None by {
                assert(plan.script(i, completed)[k] !is Docker);
            }
        }
    }
}

/// What such a run leaves.
proof fn lemma_idle_run(
    plan: PlanView,
    state: StateView,
    moves: Seq<MoveView>,
    limit: nat,
    now: Timestamp,
)
    requires
        plan.allows(state, moves, limit),
        forall|i: int|
            0 <= i < plan.images.len() ==> plan.route.dry_run || state.completed.contains(
                (#[trigger] plan.images[i]).image_ref(),
            ),
    ensures
        plan.end(state, moves, now).completed == state.completed,
        plan.saves_go_well(state.completed) ==> plan.end(state, moves, now) == state.beginning(
            plan.images.len(),
        ),
{
    let run = plan.after(state, moves);
    lemma_idle_after(plan, state, moves, limit);
    if plan.saves_go_well(state.completed) {
        lemma_no_failures(run.results);
        assert(plan.end(state, moves, now) =~= state.beginning(plan.images.len()));
    }
}

/// Results without an error have no failures among them.
proof fn lemma_no_failures(results: Seq<ResultView>)
    requires
        forall|p: int| 0 <= p < results.len() ==> (#[trigger] results[p]).1 is None,
    ensures
        failures_of(results) == Seq::<(Seq<char>, Seq<char>)>::empty(),
    decreases results.len(),
{
    if results.len() > 0 {
        let rest = results.drop_last();
        assert forall|p: int| 0 <= p < rest.len() implies (#[trigger] rest[p]).1 is None by {
            assert(rest[p] == results[p]);
        }
        lemma_no_failures(rest);
        assert(results[results.len() - 1].1 is None);
    }
}

/// How many moves a transfer still makes at most: one to start, and one for
/// each action of the longest script.
spec fn moves_left(task: TaskView) -> nat {
    match task {
        TaskView::Waiting => 11,
        TaskView::Running { script, position } => if position < script.len() {
            (script.len() - position) as nat
        } else {
            0
        },
        TaskView::Ended => 0,
    }
}

/// How many moves these transfers still make at most.
spec fn all_moves_left(tasks: Seq<TaskView>) -> nat
    decreases tasks.len(),
{
    if tasks.len() == 0 {
        0
    } else {
        all_moves_left(tasks.drop_last()) + moves_left(tasks.last())
    }
}

/// Where one transfer changes, the sum changes as its part does.
proof fn lemma_moves_left_update(tasks: Seq<TaskView>, i: int, task: TaskView)
    requires
        0 <= i < tasks.len(),
    ensures
        all_moves_left(tasks.update(i, task)) + moves_left(tasks[i]) == all_moves_left(tasks)
            + moves_left(task),
    decreases tasks.len(),
{
    let updated = tasks.update(i, task);
    if i == tasks.len() - 1 {
        assert(updated.drop_last() =~= tasks.drop_last());
    } else {
        lemma_moves_left_update(tasks.drop_last(), i, task);
        assert(updated.drop_last() =~= tasks.drop_last().update(i, task));
    }
}

/// Before the first move every transfer has all its moves left.
proof fn lemma_moves_left_at_start(n: nat)
    ensures
        all_moves_left(Seq::new(n, |i: int| TaskView::Waiting)) == 11 * n,
    decreases n,
{
    let tasks = Seq::new(n, |i: int| TaskView::Waiting);
    if n > 0 {
        lemma_moves_left_at_start((n - 1) as nat);
        assert(tasks.drop_last() =~= Seq::new((n - 1) as nat, |i: int| TaskView::Waiting));
    }
}

/// Each move uses one up.
proof fn lemma_moves_are_used_up(
    plan: PlanView,
    state: StateView,
    moves: Seq<MoveView>,
    limit: nat,
)
    requires
        plan.allows(state, moves, limit),
    ensures
        moves.len() + all_moves_left(plan.after(state, moves).tasks) <= 11 * plan.images.len(),
        plan.after(state, moves).tasks.len() == plan.images.len(),
        forall|i: int|
            0 <= i < plan.images.len() ==> match #[trigger] plan.after(state, moves).tasks[i] {
                TaskView::Running { script, position } => position < script.len(),
                _ => true,
            },
    decreases moves.len(),
{
    if moves.len() == 0 {
        lemma_moves_left_at_start(plan.images.len());
    } else {
        let before = plan.after(state, moves.drop_last());
        let after = plan.after(state, moves);
        let i = moves.last().0;
        lemma_moves_are_used_up(plan, state, moves.drop_last(), limit);
        lemma_moves_left_update(before.tasks, i, after.tasks[i]);
        assert(after.tasks == before.tasks.update(i, after.tasks[i]));
        assert(plan.script(i, before.state.completed).len() <= 10);
        assert(moves_left(after.tasks[i]) < moves_left(before.tasks[i]));
    }
}

/// Every run comes to an end: each transfer starts once and performs at most
/// ten actions.
pub proof fn law_every_run_ends(
    plan: PlanView,
    state: StateView,
    moves: Seq<MoveView>,
    limit: nat,
)
    requires
        plan.allows(state, moves, limit),
    ensures
        moves.len() <= 11 * plan.images.len(),
{
    lemma_moves_are_used_up(plan, state, moves, limit);
}

/// Where no transfer is under way, none is counted.
proof fn lemma_none_under_way(tasks: Seq<TaskView>)
    requires
        forall|i: int| 0 <= i < tasks.len() ==> (#[trigger] tasks[i]) !is Running,
    ensures
        under_way(tasks) == 0,
    decreases tasks.len(),
{
    if tasks.len() > 0 {
        let rest = tasks.drop_last();
        assert forall|i: int| 0 <= i < rest.len() implies (#[trigger] rest[i]) !is Running by {
            assert(rest[i] == tasks[i]);
        }
        lemma_none_under_way(rest);
    }
}

/// No run gets stuck, as long as one transfer at least may be under way: until
/// every transfer is over, some transfer may make a move.
pub proof fn law_no_run_gets_stuck(run: RunView, limit: nat)
    requires
        limit >= 1,
        !run.is_over(),
    ensures
        exists|i: int| #[trigger] run.may_move(i, limit),
{
    if exists|i: int| 0 <= i < run.tasks.len() && (#[trigger] run.tasks[i]) is Running {
        let i = choose|i: int| 0 <= i < run.tasks.len() && (#[trigger] run.tasks[i]) is Running;
        assert(run.may_move(i, limit));
    } else {
        lemma_none_under_way(run.tasks);
        let i = choose|i: int| 0 <= i < run.tasks.len() && !((#[trigger] run.tasks[i]) is Ended);
        assert(run.may_move(i, limit));
    }
}

/// However a run has gone so far, it can be carried through to its end, as long
/// as one transfer at least may be under way.
pub proof fn law_every_run_can_be_completed(
    plan: PlanView,
    state: StateView,
    moves: Seq<MoveView>,
    limit: nat,
)
    requires
        limit >= 1,
        plan.allows(state, moves, limit),
    ensures
        exists|all: Seq<MoveView>|
            moves.is_prefix_of(all) && #[trigger] plan.completes(state, all, limit),
    decreases 11 * plan.images.len() - moves.len(),
{
    law_every_run_ends(plan, state, moves, limit);
    let run = plan.after(state, moves);
    if run.is_over() {
        assert(moves.is_prefix_of(moves) && plan.completes(state, moves, limit));
    } else {
        law_no_run_gets_stuck(run, limit);
        let i = choose|i: int| #[trigger] run.may_move(i, limit);
        let more = moves.push((i, state.last_updated));
        assert(more.drop_last() =~= moves);
        assert(plan.allows(state, more, limit));
        law_every_run_ends(plan, state, more, limit);
        law_every_run_can_be_completed(plan, state, more, limit);
        let all = choose|all: Seq<MoveView>|
            more.is_prefix_of(all) && #[trigger] plan.completes(state, all, limit);
        assert(moves.is_prefix_of(all));
    }
}

/// Where one transfer changes, the count of those under way changes as it does.
proof fn lemma_under_way_update(tasks: Seq<TaskView>, i: int, task: TaskView)
    requires
        0 <= i < tasks.len(),
    ensures
        under_way(tasks.update(i, task)) == under_way(tasks) + (if task is Running {
            1int
        } else {
            0
        }) - (if tasks[i] is Running {
            1int
        } else {
            0
        }),
    decreases tasks.len(),
{
    let updated = tasks.update(i, task);
    if i == tasks.len() - 1 {
        assert(updated.drop_last() =~= tasks.drop_last());
    } else {
        lemma_under_way_update(tasks.drop_last(), i, task);
        assert(updated.drop_last() =~= tasks.drop_last().update(i, task));
    }
}

/// At no time are more transfers under way than the limit allows.
pub proof fn law_limit_is_kept(
    plan: PlanView,
    state: StateView,
    moves: Seq<MoveView>,
    limit: nat,
)
    requires
        plan.allows(state, moves, limit),
    ensures
        under_way(plan.after(state, moves).tasks) <= limit,
    decreases moves.len(),
{
    if moves.len() == 0 {
        lemma_none_under_way(plan.start(state).tasks);
    } else {
        let before = plan.after(state, moves.drop_last());
        let after = plan.after(state, moves);
        let i = moves.last().0;
        law_limit_is_kept(plan, state, moves.drop_last(), limit);
        lemma_under_way_update(before.tasks, i, after.tasks[i]);
        assert(after.tasks == before.tasks.update(i, after.tasks[i]));
    }
}

} // verus!
