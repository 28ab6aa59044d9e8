//! The progress of a migration: which images are done, which failed and how,
//! and when that was last known.

use vstd::hash_set::StringHashSet;
use vstd::prelude::*;

use crate::image::{ImageRef, ImageView};
use crate::text;

verus! {

/// A point in time, UTC: whole seconds since 1970 and the nanoseconds past
/// them. In a leap second the nanoseconds run on past one thousand million.
#[derive(Debug, Clone, Copy, PartialEq, Eq, Structural)]
pub struct Timestamp {
    pub secs: i64,
    pub nanos: u32,
}

impl Timestamp {
    /// What a reading of the system clock looks like.
    pub open spec fn is_clock_reading(self) -> bool {
        self.secs >= 0 && self.nanos < 1_000_000_000
    }
}

/// The current time, from `chrono::Utc::now`. It is a time since 1970, with
/// less than a second of nanoseconds: `now` panics where the clock stands
/// before 1970, and reads the nanoseconds off a `Duration`. Which time it is
/// depends on the clock, and nothing is said of it.
#[verifier::external_body]
fn utc_now() -> (r: Timestamp)
    ensures
        r.is_clock_reading(),
{
    let now = chrono::Utc::now();
    Timestamp { secs: now.timestamp(), nanos: now.timestamp_subsec_nanos() }
}

/// A set of image references that remembers the order in which they came.
pub struct CompletedSet {
    index: StringHashSet,
    order: Vec<String>,
}

impl View for CompletedSet {
    type V = Set<Seq<char>>;

    closed spec fn view(&self) -> Set<Seq<char>> {
        self.index@
    }
}

impl CompletedSet {
    /// The references in the order in which they came.
    pub closed spec fn sequence(self) -> Seq<Seq<char>> {
        text::texts(self.order@)
    }

    /// The order lists each reference of the set once.
    pub open spec fn wf(self) -> bool {
        &&& self.sequence().no_duplicates()
        &&& self.sequence().to_set() == self@
    }

    /// The empty set.
    pub fn new() -> (r: CompletedSet)
        ensures
            r.wf(),
            r@ == Set::<Seq<char>>::empty(),
            r.sequence() == Seq::<Seq<char>>::empty(),
    {
        let r = CompletedSet { index: StringHashSet::new(), order: Vec::new() };
        assert(r.sequence() =~= Seq::empty());
        assert(r.sequence().to_set() =~= r@);
        r
    }

    /// Adds a reference; one that is in the set already keeps its place.
    pub fn insert(&mut self, image_ref: &str)
        requires
            old(self).wf(),
        ensures
            final(self).wf(),
            final(self)@ == old(self)@.insert(image_ref@),
            final(self).sequence() == if old(self)@.contains(image_ref@) {
                old(self).sequence()
            } else {
                old(self).sequence().push(image_ref@)
            },
    {
        if !self.index.contains(image_ref) {
            let ghost before = self.sequence();
            self.order.push(text::owned(image_ref));
            let _ = self.index.insert(text::owned(image_ref));
            proof {
                assert(self.sequence() =~= before.push(image_ref@));
                assert(!before.contains(image_ref@)) by {
                    assert(before.to_set().contains(image_ref@) == before.contains(image_ref@));
                }
                before.lemma_push_to_set_commute(image_ref@);
            }
        } else {
            assert(self@.insert(image_ref@) =~= self@);
        }
    }

    /// Whether a reference is in the set.
    pub fn contains(&self, image_ref: &str) -> (r: bool)
        ensures
            r == self@.contains(image_ref@),
    {
        self.index.contains(image_ref)
    }

    /// How many references the set holds.
    pub fn len(&self) -> (r: usize)
        ensures
            r == self@.len(),
    {
        self.index.len()
    }

    /// The references in the order in which they came.
    pub fn refs(&self) -> (r: &Vec<String>)
        ensures
            text::texts(r@) == self.sequence(),
    {
        &self.order
    }
}

/// The state as contracts speak of it.
#[verifier::ext_equal]
pub struct StateView {
    pub started_at: Timestamp,
    pub last_updated: Timestamp,
    pub completed: Set<Seq<char>>,
    pub failed: Seq<(Seq<char>, Seq<char>)>,
    pub total_images: nat,
}

impl StateView {
    /// A state in which nothing has happened yet.
    pub open spec fn fresh(now: Timestamp) -> StateView {
        StateView {
            started_at: now,
            last_updated: now,
            completed: Set::empty(),
            failed: Seq::empty(),
            total_images: 0,
        }
    }

    /// The state that these parts make up.
    pub open spec fn of_parts(
        started_at: Timestamp,
        last_updated: Timestamp,
        completed: Seq<Seq<char>>,
        failed: Seq<(Seq<char>, Seq<char>)>,
        total_images: nat,
    ) -> StateView {
        StateView {
            started_at,
            last_updated,
            completed: completed.to_set(),
            failed,
            total_images,
        }
    }

    /// The state once a run about so many images has begun.
    pub open spec fn beginning(self, image_count: nat) -> StateView {
        if image_count > 0 {
            StateView { total_images: image_count, ..self }
        } else {
            self
        }
    }

    /// The state once an image is done.
    pub open spec fn completing(self, image_ref: Seq<char>, now: Timestamp) -> StateView {
        StateView { completed: self.completed.insert(image_ref), last_updated: now, ..self }
    }

    /// The state once these images are done, one after the other.
    pub open spec fn completing_all(self, marks: Seq<(Seq<char>, Timestamp)>) -> StateView
        decreases marks.len(),
    {
        if marks.len() == 0 {
            self
        } else {
            self.completing_all(marks.drop_last()).completing(marks.last().0, marks.last().1)
        }
    }

    /// The state once an image has failed.
    pub open spec fn failing(
        self,
        image_ref: Seq<char>,
        error: Seq<char>,
        now: Timestamp,
    ) -> StateView {
        StateView { failed: self.failed.push((image_ref, error)), last_updated: now, ..self }
    }

    /// The state once these failures are added, the last of them at `now`.
    pub open spec fn recording(
        self,
        failures: Seq<(Seq<char>, Seq<char>)>,
        now: Timestamp,
    ) -> StateView {
        StateView {
            failed: self.failed + failures,
            last_updated: if failures.len() > 0 {
                now
            } else {
                self.last_updated
            },
            ..self
        }
    }
}

/// Failures as contracts speak of them: the image and the error.
pub open spec fn failure_views(failed: Seq<(String, String)>) -> Seq<(Seq<char>, Seq<char>)> {
    failed.map_values(|f: (String, String)| (f.0@, f.1@))
}

/// How the transfer of an image ended, as contracts speak of it: the error, if
/// there was one.
pub type ResultView = (ImageView, Option<Seq<char>>);

/// Results as contracts speak of them.
pub open spec fn result_views(results: Seq<(ImageRef, Result<(), String>)>) -> Seq<ResultView> {
    results.map_values(
        |r: (ImageRef, Result<(), String>)|
            (
                r.0@,
                match r.1 {
                    Ok(_) => None::<Seq<char>>,
                    Err(error) => Some(error@),
                },
            ),
    )
}

/// The failures that a result is: one or none.
pub open spec fn failure_of(result: ResultView) -> Seq<(Seq<char>, Seq<char>)> {
    match result.1 {
        Some(error) => seq![(result.0.image_ref(), error)],
        None => Seq::empty(),
    }
}

/// The failures among the results of a run, in the order of the results.
pub open spec fn failures_of(results: Seq<ResultView>) -> Seq<(Seq<char>, Seq<char>)>
    decreases results.len(),
{
    if results.len() == 0 {
        Seq::empty()
    } else {
        failures_of(results.drop_last()) + failure_of(results.last())
    }
}

/// The progress of a migration.
pub struct MigrationState {
    started_at: Timestamp,
    last_updated: Timestamp,
    completed: CompletedSet,
    failed: Vec<(String, String)>,
    total_images: usize,
}

impl View for MigrationState {
    type V = StateView;

    closed spec fn view(&self) -> StateView {
        StateView {
            started_at: self.started_at,
            last_updated: self.last_updated,
            completed: self.completed@,
            failed: failure_views(self.failed@),
            total_images: self.total_images as nat,
        }
    }
}

impl MigrationState {
    pub closed spec fn wf(self) -> bool {
        self.completed.wf()
    }

    /// A state in which nothing has happened yet, as of now.
    pub fn new() -> (r: MigrationState)
        ensures
            r.wf(),
            exists|now: Timestamp|
                #[trigger] now.is_clock_reading() && r@ == StateView::fresh(now),
    {
        MigrationState::new_at(utc_now())
    }

    /// A state in which nothing has happened yet.
    pub fn new_at(now: Timestamp) -> (r: MigrationState)
        ensures
            r.wf(),
            r@ == StateView::fresh(now),
    {
        let r = MigrationState {
            started_at: now,
            last_updated: now,
            completed: CompletedSet::new(),
            failed: Vec::new(),
            total_images: 0,
        };
        assert(r@ =~= StateView::fresh(now));
        r
    }

    /// The state that these parts were saved from. A reference that is listed
    /// as completed more than once counts once.
    pub fn from_parts(
        started_at: Timestamp,
        last_updated: Timestamp,
        completed: &Vec<String>,
        failed: Vec<(String, String)>,
        total_images: usize,
    ) -> (r: MigrationState)
        ensures
            r.wf(),
            r@ == StateView::of_parts(
                started_at,
                last_updated,
                text::texts(completed@),
                failure_views(failed@),
                total_images as nat,
            ),
    {
        let mut set = CompletedSet::new();
        let ghost all = text::texts(completed@);
        assert(all.take(0).to_set() =~= set@);
        for i in 0..completed.len()
            invariant
                all == text::texts(completed@),
                set.wf(),
                set@ == all.take(i as int).to_set(),
        {
            set.insert(completed[i].as_str());
            proof {
                all.take(i as int).lemma_push_to_set_commute(all[i as int]);
                assert(all.take(i + 1) =~= all.take(i as int).push(all[i as int]));
            }
        }
        assert(all.take(all.len() as int) =~= all);
        MigrationState { started_at, last_updated, completed: set, failed, total_images }
    }

    /// Records that an image is done, as of now.
    pub fn mark_completed(&mut self, image_ref: &str)
        requires
            old(self).wf(),
        ensures
            final(self).wf(),
            exists|now: Timestamp|
                #[trigger] now.is_clock_reading() && final(self)@ == old(self)@.completing(
                    image_ref@,
                    now,
                ),
    {
        self.mark_completed_at(image_ref, utc_now());
    }

    /// Records that an image is done.
    pub fn mark_completed_at(&mut self, image_ref: &str, now: Timestamp)
        requires
            old(self).wf(),
        ensures
            final(self).wf(),
            final(self)@ == old(self)@.completing(image_ref@, now),
    {
        self.completed.insert(image_ref);
        self.last_updated = now;
    }

    /// Records that an image has failed, as of now.
    pub fn mark_failed(&mut self, image_ref: &str, error: &str)
        requires
            old(self).wf(),
        ensures
            final(self).wf(),
            exists|now: Timestamp|
                #[trigger] now.is_clock_reading() && final(self)@ == old(self)@.failing(
                    image_ref@,
                    error@,
                    now,
                ),
    {
        self.mark_failed_at(image_ref, error, utc_now());
    }

    /// Records that an image has failed.
    pub fn mark_failed_at(&mut self, image_ref: &str, error: &str, now: Timestamp)
        requires
            old(self).wf(),
        ensures
            final(self).wf(),
            final(self)@ == old(self)@.failing(image_ref@, error@, now),
    {
        let ghost before = self@;
        self.failed.push((text::owned(image_ref), text::owned(error)));
        self.last_updated = now;
        assert(self@.failed =~= before.failed.push((image_ref@, error@)));
    }

    /// Records the images that failed in a run, in the order of its results.
    pub fn record_results(&mut self, results: &Vec<(ImageRef, Result<(), String>)>)
        requires
            old(self).wf(),
        ensures
            final(self).wf(),
            exists|now: Timestamp|
                #[trigger] now.is_clock_reading() && final(self)@ == old(self)@.recording(
                    failures_of(result_views(results@)),
                    now,
                ),
    {
        let ghost before = self@;
        let ghost views = result_views(results@);
        let ghost mut last = Timestamp { secs: 0, nanos: 0 };
        assert(last.is_clock_reading());
        assert(before =~= before.recording(failures_of(views.take(0)), last));
        for i in 0..results.len()
            invariant
                self.wf(),
                last.is_clock_reading(),
                views == result_views(results@),
                self@ == before.recording(failures_of(views.take(i as int)), last),
        {
            assert(views.take(i + 1).drop_last() =~= views.take(i as int));
            assert(views.take(i + 1).last() == views[i as int]);
            let ghost current = self@;
            match &results[i].1 {
                Ok(_) => {
                    assert(self@ =~= before.recording(failures_of(views.take(i + 1)), last));
                },
                Err(error) => {
                    let image_ref = results[i].0.to_string();
                    self.mark_failed(image_ref.as_str(), error.as_str());
                    proof {
                        last = choose|now: Timestamp|
                            #[trigger] now.is_clock_reading() && self@ == current.failing(
                                image_ref@,
                                error@,
                                now,
                            );
                        assert(self@ =~= before.recording(
                            failures_of(views.take(i + 1)),
                            last,
                        ));
                    }
                },
            }
        }
        assert(views.take(views.len() as int) =~= views);
    }

    /// Takes note of how many images a run is about. With none there is
    /// nothing to run, and the state stays as it was.
    pub fn begin_run(&mut self, image_count: usize) -> (r: bool)
        requires
            old(self).wf(),
        ensures
            final(self).wf(),
            r == (image_count > 0),
            final(self)@ == old(self)@.beginning(image_count as nat),
    {
        if image_count == 0 {
            return false;
        }
        self.total_images = image_count;
        true
    }

    /// Whether an image is done.
    pub fn is_completed(&self, image_ref: &str) -> (r: bool)
        ensures
            r == self@.completed.contains(image_ref@),
    {
        self.completed.contains(image_ref)
    }

    /// When the migration began.
    pub fn started_at(&self) -> (r: Timestamp)
        ensures
            r == self@.started_at,
    {
        self.started_at
    }

    /// When the state last changed.
    pub fn last_updated(&self) -> (r: Timestamp)
        ensures
            r == self@.last_updated,
    {
        self.last_updated
    }

    /// The images that are done, each once.
    pub fn completed_refs(&self) -> (r: &Vec<String>)
        requires
            self.wf(),
        ensures
            text::texts(r@).no_duplicates(),
            text::texts(r@).to_set() == self@.completed,
    {
        self.completed.refs()
    }

    /// How many images are done.
    pub fn completed_count(&self) -> (r: usize)
        ensures
            r == self@.completed.len(),
    {
        self.completed.len()
    }

    /// The images that failed, with their errors, in the order in which they
    /// were recorded.
    pub fn failures(&self) -> (r: &Vec<(String, String)>)
        ensures
            failure_views(r@) == self@.failed,
    {
        &self.failed
    }

    /// How many images the last run was about.
    pub fn total_images(&self) -> (r: usize)
        ensures
            r == self@.total_images,
    {
        self.total_images
    }
}

/// A state that is taken apart to be saved, and put together again from the
/// parts that are loaded, is the state that it was.
pub proof fn law_saved_state_is_restored(state: StateView, completed: Seq<Seq<char>>)
    requires
        completed.to_set() == state.completed,
    ensures
        StateView::of_parts(
            state.started_at,
            state.last_updated,
            completed,
            state.failed,
            state.total_images,
        ) == state,
{
}

/// What is completed stays completed, and what has failed stays recorded,
/// whatever is recorded next.
pub proof fn law_records_are_kept(
    state: StateView,
    image_ref: Seq<char>,
    failures: Seq<(Seq<char>, Seq<char>)>,
    now: Timestamp,
)
    ensures
        state.completed.subset_of(state.completing(image_ref, now).completed),
        state.completing(image_ref, now).failed == state.failed,
        state.recording(failures, now).completed == state.completed,
        state.failed.is_prefix_of(state.recording(failures, now).failed),
{
}

/// In which order images are completed does not matter to what is completed:
/// transfers may run side by side.
pub proof fn law_completions_commute(
    state: StateView,
    first: Seq<char>,
    second: Seq<char>,
    now: Timestamp,
    then: Timestamp,
)
    ensures
        state.completing(first, now).completing(second, then) == state.completing(
            second,
            now,
        ).completing(first, then),
{
    assert(state.completing(first, now).completing(second, then) =~= state.completing(
        second,
        now,
    ).completing(first, then));
}

/// After any number of marks exactly the images that were completed before and
/// those of the marks are completed, in whatever order and however often they
/// were marked, and nothing else has changed but the time.
pub proof fn law_any_order_of_marks_completes_the_same(
    state: StateView,
    marks: Seq<(Seq<char>, Timestamp)>,
)
    ensures
        ({
            let refs = marks.map_values(|mark: (Seq<char>, Timestamp)| mark.0);
            let after = state.completing_all(marks);
            &&& after.completed == state.completed.union(refs.to_set())
            &&& after.failed == state.failed
            &&& after.total_images == state.total_images
            &&& after.started_at == state.started_at
        }),
    decreases marks.len(),
{
    let refs = marks.map_values(|mark: (Seq<char>, Timestamp)| mark.0);
    if marks.len() == 0 {
        assert(refs.to_set() =~= Set::empty());
        assert(state.completed.union(refs.to_set()) =~= state.completed);
    } else {
        let rest = marks.drop_last();
        let rest_refs = rest.map_values(|mark: (Seq<char>, Timestamp)| mark.0);
        law_any_order_of_marks_completes_the_same(state, rest);
        assert(refs =~= rest_refs.push(marks.last().0));
        rest_refs.lemma_push_to_set_commute(marks.last().0);
        assert(state.completed.union(refs.to_set()) =~= state.completed.union(
            rest_refs.to_set(),
        ).insert(marks.last().0));
    }
}

/// To record failures is to record one after the other.
pub proof fn law_recording_is_failing_in_turn(
    state: StateView,
    failures: Seq<(Seq<char>, Seq<char>)>,
    image_ref: Seq<char>,
    error: Seq<char>,
    before: Timestamp,
    now: Timestamp,
)
    ensures
        state.recording(failures.push((image_ref, error)), now) == state.recording(
            failures,
            before,
        ).failing(image_ref, error, now),
{
    assert(state.recording(failures.push((image_ref, error)), now) =~= state.recording(
        failures,
        before,
    ).failing(image_ref, error, now));
}

/// The failures of two lists of results, one after the other, are those of
/// the first and then those of the second.
proof fn lemma_failures_concat(a: Seq<ResultView>, b: Seq<ResultView>)
    ensures
        failures_of(a + b) == failures_of(a) + failures_of(b),
    decreases b.len(),
{
    if b.len() == 0 {
        assert(a + b =~= a);
        assert(failures_of(a) + failures_of(b) =~= failures_of(a));
    } else {
        lemma_failures_concat(a, b.drop_last());
        assert((a + b).drop_last() =~= a + b.drop_last());
        assert(failures_of(a + b) =~= failures_of(a) + failures_of(b));
    }
}

/// Every failure of a run is recorded, and nothing else is.
pub proof fn law_exactly_the_failures_are_recorded(
    results: Seq<ResultView>,
    image_ref: Seq<char>,
    error: Seq<char>,
)
    ensures
        failures_of(results).contains((image_ref, error)) <==> exists|i: int|
            0 <= i < results.len() && (#[trigger] results[i]).0.image_ref() == image_ref
                && results[i].1 == Some(error),
    decreases results.len(),
{
    if results.len() > 0 {
        let rest = results.drop_last();
        let last = results.last();
        let failure = (image_ref, error);
        let all = failures_of(results);
        law_exactly_the_failures_are_recorded(rest, image_ref, error);
        if all.contains(failure) {
            let j = choose|j: int| 0 <= j < all.len() && all[j] == failure;
            if j < failures_of(rest).len() {
                assert(failures_of(rest)[j] == failure);
                let i = choose|i: int|
                    0 <= i < rest.len() && (#[trigger] rest[i]).0.image_ref() == image_ref
                        && rest[i].1 == Some(error);
                assert(results[i] == rest[i]);
            } else {
                assert(failure_of(last)[j - failures_of(rest).len()] == failure);
                assert(results[results.len() - 1] == last);
            }
        }
        if exists|i: int|
            0 <= i < results.len() && (#[trigger] results[i]).0.image_ref() == image_ref
                && results[i].1 == Some(error) {
            let i = choose|i: int|
                0 <= i < results.len() && (#[trigger] results[i]).0.image_ref() == image_ref
                    && results[i].1 == Some(error);
            if i < rest.len() {
                assert(rest[i] == results[i]);
                assert(failures_of(rest).contains(failure));
                let j = choose|j: int|
                    0 <= j < failures_of(rest).len() && failures_of(rest)[j] == failure;
                assert(all[j] == failure);
            } else {
                assert(all[failures_of(rest).len() as int] == failure);
            }
        }
    }
}

/// In which order the results of a run come in does not matter to what has
/// failed: the same results have the same failures, in some order.
pub proof fn law_order_of_results_does_not_matter(a: Seq<ResultView>, b: Seq<ResultView>)
    requires
        a.to_multiset() == b.to_multiset(),
    ensures
        failures_of(a).to_multiset() == failures_of(b).to_multiset(),
    decreases a.len(),
{
    broadcast use vstd::seq_lib::group_to_multiset_ensures;

    assert(a.to_multiset().len() == a.len());
    assert(b.to_multiset().len() == b.len());
    if a.len() == 0 {
        assert(a =~= b);
    } else {
        let rest = a.drop_last();
        let last = a.last();
        assert(a =~= rest.push(last));
        assert(b.to_multiset().contains(last)) by {
            assert(a[a.len() - 1] == last);
            assert(a.contains(last));
        }
        assert(b.contains(last));
        let j = choose|j: int| 0 <= j < b.len() && b[j] == last;
        let others = b.remove(j);
        assert(rest.to_multiset() =~= others.to_multiset());
        law_order_of_results_does_not_matter(rest, others);
        let (before, after) = (b.take(j), b.skip(j + 1));
        assert(others =~= before + after);
        assert(b =~= before + (seq![last] + after));
        assert(seq![last].drop_last() =~= Seq::empty());
        assert(failures_of(seq![last]) =~= failure_of(last)) by {
            assert(failures_of(Seq::<ResultView>::empty()) =~= Seq::empty());
        }
        lemma_failures_concat(before, after);
        lemma_failures_concat(before, seq![last] + after);
        lemma_failures_concat(seq![last], after);
        let (x, y, z) = (failures_of(before), failure_of(last), failures_of(after));
        vstd::seq_lib::lemma_multiset_commutative(failures_of(rest), y);
        vstd::seq_lib::lemma_multiset_commutative(x, y + z);
        vstd::seq_lib::lemma_multiset_commutative(y, z);
        vstd::seq_lib::lemma_multiset_commutative(x, z);
        assert(failures_of(a).to_multiset() =~= failures_of(b).to_multiset());
    }
}

/// A fresh state holds nothing, and began when it was last updated.
pub proof fn law_fresh_state_holds_nothing(now: Timestamp)
    ensures
        ({
            let state = StateView::fresh(now);
            &&& forall|x: Seq<char>| !state.completed.contains(x)
            &&& state.failed.len() == 0
            &&& state.total_images == 0
            &&& state.started_at == now
            &&& state.last_updated == now
        }),
{
}

/// To complete an image adds it to the completed ones and changes nothing else
/// but the time.
pub proof fn law_completing_adds_one_image(
    state: StateView,
    image_ref: Seq<char>,
    now: Timestamp,
)
    ensures
        ({
            let next = state.completing(image_ref, now);
            &&& forall|x: Seq<char>| #[trigger]
                next.completed.contains(x) <==> state.completed.contains(x) || x == image_ref
            &&& next.failed == state.failed
            &&& next.total_images == state.total_images
            &&& next.started_at == state.started_at
            &&& next.last_updated == now
        }),
{
}

/// To record a failure adds it after the others, with the whole reference and
/// the whole error, and changes nothing else but the time.
pub proof fn law_failing_adds_one_failure(
    state: StateView,
    image_ref: Seq<char>,
    error: Seq<char>,
    now: Timestamp,
)
    ensures
        ({
            let next = state.failing(image_ref, error, now);
            &&& next.failed.len() == state.failed.len() + 1
            &&& next.failed.drop_last() == state.failed
            &&& next.failed.last().0 == image_ref
            &&& next.failed.last().1 == error
            &&& next.completed == state.completed
            &&& next.total_images == state.total_images
            &&& next.started_at == state.started_at
            &&& next.last_updated == now
        }),
{
    assert(state.failing(image_ref, error, now).failed.drop_last() =~= state.failed);
}

/// To record failures adds each of them after the others, in their order, and
/// changes nothing else; the time only where there is one.
pub proof fn law_recording_adds_each_failure(
    state: StateView,
    failures: Seq<(Seq<char>, Seq<char>)>,
    now: Timestamp,
)
    ensures
        ({
            let next = state.recording(failures, now);
            let n = state.failed.len();
            &&& next.failed.len() == n + failures.len()
            &&& forall|i: int| 0 <= i < n ==> #[trigger] next.failed[i] == state.failed[i]
            &&& forall|i: int|
                0 <= i < failures.len() ==> next.failed[n + i] == #[trigger] failures[i]
            &&& next.completed == state.completed
            &&& next.total_images == state.total_images
            &&& next.started_at == state.started_at
            &&& failures.len() > 0 ==> next.last_updated == now
            &&& failures.len() == 0 ==> next.last_updated == state.last_updated
        }),
{
}

/// A run counts its images and changes nothing else. One without images leaves
/// the count as it was.
pub proof fn law_run_counts_its_images(state: StateView, image_count: nat)
    ensures
        ({
            let next = state.beginning(image_count);
            &&& image_count > 0 ==> next.total_images == image_count
            &&& image_count == 0 ==> next.total_images == state.total_images
            &&& next.completed == state.completed
            &&& next.failed == state.failed
            &&& next.started_at == state.started_at
            &&& next.last_updated == state.last_updated
        }),
{
}

/// The failures among results are taken result by result: two lists in a row
/// have the failures of the one and then those of the other, a result without
/// an error is none, and one with an error is the image and the whole error.
pub proof fn law_failures_are_taken_result_by_result(
    a: Seq<ResultView>,
    b: Seq<ResultView>,
    image: ImageView,
    error: Seq<char>,
)
    ensures
        failures_of(a + b) == failures_of(a) + failures_of(b),
        failures_of(seq![(image, None::<Seq<char>>)]).len() == 0,
        failures_of(seq![(image, Some(error))]) == seq![(image.image_ref(), error)],
        failures_of(Seq::empty()).len() == 0,
{
    lemma_failures_concat(a, b);
    let nothing = Seq::<ResultView>::empty();
    assert(failures_of(nothing) =~= Seq::empty());
    let good: Seq<ResultView> = seq![(image, None::<Seq<char>>)];
    let bad: Seq<ResultView> = seq![(image, Some(error))];
    assert(good.drop_last() =~= nothing);
    assert(bad.drop_last() =~= nothing);
    assert(failures_of(bad) =~= seq![(image.image_ref(), error)]);
}

/// Failures and results are seen one by one, in their order.
pub proof fn law_each_result_is_seen(
    failed: Seq<(String, String)>,
    results: Seq<(ImageRef, Result<(), String>)>,
)
    ensures
        failure_views(failed).len() == failed.len(),
        forall|i: int|
            0 <= i < failed.len() ==> (#[trigger] failure_views(failed)[i]).0 == failed[i].0@
                && failure_views(failed)[i].1 == failed[i].1@,
        result_views(results).len() == results.len(),
        forall|i: int|
            0 <= i < results.len() ==> (#[trigger] result_views(results)[i]).0 == results[i].0@,
        forall|i: int|
            0 <= i < results.len() ==> match results[i].1 {
                Ok(_) => (#[trigger] result_views(results)[i]).1 is None,
                Err(error) => result_views(results)[i].1 == Some(error@),
            },
{
}

} // verus!
