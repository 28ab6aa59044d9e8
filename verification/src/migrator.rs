//! A migration as a whole: two registries, the state between them, and what
//! is decided from one step to the next.

use vstd::prelude::*;

use crate::client::{ClientError, HarborClient};
use crate::config::{project_views, HarborConfig, HarborConfigView, ProjectConfig, ProjectView};
use crate::discovery::{Discovery, DiscoveryView, PhaseView};
use crate::image::{registry_host, ImageRef, ImageView};
use crate::report::{summary, summary_lines};
use crate::state::{
    failures_of, law_saved_state_is_restored, result_views, MigrationState, StateView, Timestamp,
};
use crate::text;
use crate::transfer::{law_transfer_step_by_step, only_tells, RouteView, Transfer};

verus! {

/// A migration as contracts speak of it.
pub struct MigratorView {
    pub source: HarborConfigView,
    pub destination: HarborConfigView,
    pub state: StateView,
    pub state_file: Seq<char>,
    pub dry_run: bool,
}

impl MigratorView {
    /// Where the images go.
    pub open spec fn route(self) -> RouteView {
        RouteView {
            source: self.source,
            destination: self.destination,
            dry_run: self.dry_run,
        }
    }

    /// The search for the images of these projects.
    pub open spec fn search(self, projects: Seq<ProjectView>) -> DiscoveryView {
        DiscoveryView::start(self.source.url, projects)
    }

    /// The migration once it goes on from a saved state, if there is one.
    pub open spec fn going_on_from(self, saved: Option<StateView>) -> MigratorView {
        match saved {
            Some(state) => MigratorView { state, ..self },
            None => self,
        }
    }
}

/// A migration from one registry to another.
pub struct Migrator {
    source: HarborClient,
    destination: HarborClient,
    state: MigrationState,
    state_file: String,
    dry_run: bool,
}

impl View for Migrator {
    type V = MigratorView;

    closed spec fn view(&self) -> MigratorView {
        MigratorView {
            source: self.source.registry(),
            destination: self.destination.registry(),
            state: self.state@,
            state_file: self.state_file@,
            dry_run: self.dry_run,
        }
    }
}

impl Migrator {
    pub closed spec fn wf(self) -> bool {
        self.state.wf()
    }

    /// The headers that sign in to the source and to the destination.
    pub closed spec fn headers(self) -> (Seq<u8>, Seq<u8>) {
        (self.source.header(), self.destination.header())
    }

    /// A migration of which nothing has happened yet.
    pub fn new(
        source_config: HarborConfig,
        dest_config: HarborConfig,
        state_file: String,
        dry_run: bool,
    ) -> (r: Result<Migrator, ClientError>)
        requires
            source_config@.auth_fits(),
            dest_config@.auth_fits(),
        ensures
            r is Ok,
            r->Ok_0.wf(),
            r->Ok_0.headers() == (
                vstd::utf8::encode_utf8(source_config@.basic_auth()),
                vstd::utf8::encode_utf8(dest_config@.basic_auth()),
            ),
            exists|now: Timestamp|
                #[trigger] now.is_clock_reading() && r->Ok_0@ == (MigratorView {
                    source: source_config@,
                    destination: dest_config@,
                    state: StateView::fresh(now),
                    state_file: state_file@,
                    dry_run,
                }),
    {
        let source = match HarborClient::new(source_config) {
            Ok(client) => client,
            Err(error) => {
                return Err(error);
            },
        };
        let destination = match HarborClient::new(dest_config) {
            Ok(client) => client,
            Err(error) => {
                return Err(error);
            },
        };
        Ok(Migrator { source, destination, state: MigrationState::new(), state_file, dry_run })
    }

    /// Goes on from a state that was saved before, if there is one.
    pub fn load_state(&mut self, saved: Option<MigrationState>)
        requires
            old(self).wf(),
            saved matches Some(state) ==> state.wf(),
        ensures
            final(self).wf(),
            final(self).headers() == old(self).headers(),
            final(self)@ == old(self)@.going_on_from(
                match saved {
                    Some(state) => Some(state@),
                    None => None,
                },
            ),
    {
        match saved {
            Some(state) => {
                self.state = state;
            },
            None => {},
        }
    }

    /// The search for the images of these projects in the source registry.
    pub fn collect_all_images(&self, projects: Vec<ProjectConfig>) -> (r: Discovery)
        ensures
            r.wf(),
            r@ == DiscoveryView::start(self@.source.url, project_views(projects@)),
            r@ == self@.search(project_views(projects@)),
    {
        Discovery::new(self.source.config().url.as_str(), projects)
    }

    /// Takes note of the images of a run, and says whether there is anything
    /// to run.
    pub fn begin_run(&mut self, images: &Vec<ImageRef>) -> (r: bool)
        requires
            old(self).wf(),
        ensures
            final(self).wf(),
            final(self).headers() == old(self).headers(),
            r == (images@.len() > 0),
            final(self)@ == (MigratorView {
                state: old(self)@.state.beginning(images@.len()),
                ..old(self)@
            }),
    {
        self.state.begin_run(images.len())
    }

    /// The transfer of one image, before its first action.
    pub fn migrate_image(&self, image: &ImageRef) -> (r: Transfer)
        ensures
            r.is_running(),
            r.position() == 0,
            r.script() == self@.route().script(image@, self@.state.completed),
            r.script() == (RouteView {
                source: self@.source,
                destination: self@.destination,
                dry_run: self@.dry_run,
            }).script(image@, self@.state.completed),
            self@.dry_run ==> forall|i: int|
                0 <= i < r.script().len() ==> only_tells(#[trigger] r.script()[i]),
    {
        Transfer::new(
            self.source.config(),
            self.destination.config(),
            self.dry_run,
            image,
            &self.state,
        )
    }

    /// Records that an image is done, as of now.
    pub fn mark_completed(&mut self, image_ref: &str)
        requires
            old(self).wf(),
        ensures
            final(self).wf(),
            final(self).headers() == old(self).headers(),
            exists|now: Timestamp|
                #[trigger] now.is_clock_reading() && final(self)@ == (MigratorView {
                    state: old(self)@.state.completing(image_ref@, now),
                    ..old(self)@
                }),
    {
        self.state.mark_completed(image_ref);
    }

    /// Records the images that failed in a run, in the order of its results.
    pub fn finish_run(&mut self, results: &Vec<(ImageRef, Result<(), String>)>)
        requires
            old(self).wf(),
        ensures
            final(self).wf(),
            final(self).headers() == old(self).headers(),
            exists|now: Timestamp|
                #[trigger] now.is_clock_reading() && final(self)@ == (MigratorView {
                    state: old(self)@.state.recording(failures_of(result_views(results@)), now),
                    ..old(self)@
                }),
    {
        self.state.record_results(results);
    }

    /// The lines that are printed at the end.
    pub fn summary(&self) -> (r: Vec<String>)
        ensures
            text::texts(r@) == summary_lines(self@.state),
    {
        summary(&self.state)
    }

    /// The client of the source registry.
    pub fn source(&self) -> (r: &HarborClient)
        ensures
            r.registry() == self@.source,
            r.header() == self.headers().0,
    {
        &self.source
    }

    /// The client of the destination registry.
    pub fn destination(&self) -> (r: &HarborClient)
        ensures
            r.registry() == self@.destination,
            r.header() == self.headers().1,
    {
        &self.destination
    }

    /// The state.
    pub fn state(&self) -> (r: &MigrationState)
        requires
            self.wf(),
        ensures
            r.wf(),
            r@ == self@.state,
    {
        &self.state
    }

    /// Where the state is saved.
    pub fn state_file(&self) -> (r: &String)
        ensures
            r@ == self@.state_file,
    {
        &self.state_file
    }
}

/// A migration whose state is taken apart to be saved is gone on with where it
/// was, by any migration that loads the same parts: the references of the
/// completed images may come back in another order, and more than once.
pub proof fn law_saved_migration_is_gone_on_with(
    saved: MigratorView,
    completed: Seq<Seq<char>>,
    other: MigratorView,
)
    requires
        completed.to_set() == saved.state.completed,
    ensures
        other.going_on_from(
            Some(
                StateView::of_parts(
                    saved.state.started_at,
                    saved.state.last_updated,
                    completed,
                    saved.state.failed,
                    saved.state.total_images,
                ),
            ),
        ) == (MigratorView { state: saved.state, ..other }),
{
    law_saved_state_is_restored(saved.state, completed);
}

/// A migration goes its own way: from its own source to its own destination,
/// and dry exactly if it is a dry run, whatever its state is.
pub proof fn law_migration_goes_its_own_way(migration: MigratorView)
    ensures
        migration.route().source == migration.source,
        migration.route().destination == migration.destination,
        migration.route().dry_run == migration.dry_run,
{
}

/// A migration that is a dry run only tells, whatever image it comes to and
/// whatever its state is: no command is run, nothing is marked, nothing is
/// saved.
pub proof fn law_dry_migration_only_tells(migration: MigratorView, image: ImageView, i: int)
    requires
        migration.dry_run,
        0 <= i < migration.route().script(image, migration.state.completed).len(),
    ensures
        ({
            let action = migration.route().script(image, migration.state.completed)[i];
            action is Announce || action is Conclude
        }),
{
}

/// A migration that is no dry run fetches an image that is not completed from
/// its own source and uploads it to its own destination, by the names that the
/// project mapping says.
pub proof fn law_migration_moves_the_image(migration: MigratorView, image: ImageView)
    requires
        !migration.dry_run,
        !migration.state.completed.contains(image.image_ref()),
    ensures
        ({
            let script = migration.route().script(image, migration.state.completed);
            let label = image.repository + ":"@ + image.tag;
            &&& script[2] is Docker
            &&& script[2]->command.args() == seq![
                "pull"@,
                registry_host(migration.source.url) + "/"@ + image.project.source + "/"@ + label,
            ]
            &&& script[5] is Docker
            &&& script[5]->command.args() == seq![
                "push"@,
                registry_host(migration.destination.url) + "/"@ + image.project.destination + "/"@
                    + label,
            ]
        }),
{
    law_transfer_step_by_step(migration.route(), image, migration.state.completed);
}

/// To go on from a saved state is to take it as it is and to keep all the
/// rest; without one nothing changes.
pub proof fn law_going_on_takes_the_state(migration: MigratorView, saved: StateView)
    ensures
        ({
            let next = migration.going_on_from(Some(saved));
            &&& next.state == saved
            &&& next.source == migration.source
            &&& next.destination == migration.destination
            &&& next.state_file == migration.state_file
            &&& next.dry_run == migration.dry_run
        }),
        migration.going_on_from(None) == migration,
{
}

/// A migration searches its own source, for all the projects that it is given.
pub proof fn law_migration_searches_its_source(
    migration: MigratorView,
    projects: Seq<ProjectView>,
)
    ensures
        ({
            let search = migration.search(projects);
            &&& search.url == migration.source.url
            &&& search.projects == projects
            &&& search.images.len() == 0
            &&& projects.len() > 0 ==> {
                &&& search.phase matches PhaseView::Repositories { listing }
                &&& listing.url == migration.source.url
                &&& listing.project == projects[0].source
                &&& listing.page == 1
            }
        }),
{
}

} // verus!
