//! The search for the images of a migration: every tag of every artifact of
//! every repository of the source projects.
//!
//! A discovery says which page of which listing it wants next. The caller asks
//! the registry and hands over the status of the answer; if it is accepted, the
//! page comes next. So it goes on until nothing is wanted any more.

use vstd::prelude::*;

use crate::config::{project_views, ProjectConfig, ProjectView};
use crate::image::{ImageRef, ImageView};
use crate::listing::{
    artifact_views, artifacts_url, is_success, repositories_url, repository_names, status_line,
    tag_names, Artifact, ArtifactListing, ArtifactListingView, ArtifactStep, ArtifactView,
    Repository, RepositoryListing, RepositoryListingView, RepositoryStep, Tag, PAGE_SIZE,
};
use crate::text;

verus! {

/// The images with these tags.
pub open spec fn images_of_tags(
    project: ProjectView,
    repository: Seq<char>,
    tags: Seq<Seq<char>>,
) -> Seq<ImageView> {
    tags.map_values(|tag: Seq<char>| ImageView { project, repository, tag })
}

/// The images of an artifact: one for each tag.
pub open spec fn images_of_artifact(
    project: ProjectView,
    repository: Seq<char>,
    artifact: ArtifactView,
) -> Seq<ImageView> {
    match artifact {
        Some(tags) => images_of_tags(project, repository, tags),
        None => Seq::empty(),
    }
}

/// The images of the artifacts of a repository.
pub open spec fn images_of_artifacts(
    project: ProjectView,
    repository: Seq<char>,
    artifacts: Seq<ArtifactView>,
) -> Seq<ImageView>
    decreases artifacts.len(),
{
    if artifacts.len() == 0 {
        Seq::empty()
    } else {
        images_of_artifacts(project, repository, artifacts.drop_last()) + images_of_artifact(
            project,
            repository,
            artifacts.last(),
        )
    }
}

/// Images as contracts speak of them.
pub open spec fn image_views(images: Seq<ImageRef>) -> Seq<ImageView> {
    images.map_values(|image: ImageRef| image@)
}

/// What a discovery is waiting for, as contracts speak of it.
#[allow(inconsistent_fields)]
pub enum PhaseView {
    Repositories { listing: RepositoryListingView },
    Artifacts {
        repositories: Seq<Seq<char>>,
        repository: nat,
        listing: ArtifactListingView,
    },
    Done,
}

/// A discovery as contracts speak of it.
pub struct DiscoveryView {
    pub url: Seq<char>,
    pub projects: Seq<ProjectView>,
    pub project: nat,
    pub phase: PhaseView,
    pub images: Seq<ImageView>,
}

impl DiscoveryView {
    /// A discovery that has not asked for anything yet.
    pub open spec fn start(url: Seq<char>, projects: Seq<ProjectView>) -> DiscoveryView {
        DiscoveryView {
            url,
            projects,
            project: 0,
            phase: PhaseView::Done,
            images: Seq::empty(),
        }.at_project(0)
    }

    /// The discovery at the beginning of a project, or at its end where there
    /// is no such project.
    pub open spec fn at_project(self, project: nat) -> DiscoveryView {
        DiscoveryView {
            project,
            phase: if project < self.projects.len() {
                PhaseView::Repositories {
                    listing: RepositoryListingView::start(
                        self.url,
                        self.projects[project as int].source,
                    ),
                }
            } else {
                PhaseView::Done
            },
            ..self
        }
    }

    /// The discovery at the beginning of a repository of the current project,
    /// or of the next project where there is no such repository.
    pub open spec fn at_repository(
        self,
        repositories: Seq<Seq<char>>,
        repository: nat,
    ) -> DiscoveryView {
        if repository < repositories.len() {
            DiscoveryView {
                phase: PhaseView::Artifacts {
                    repositories,
                    repository,
                    listing: ArtifactListingView::start(
                        self.url,
                        self.projects[self.project as int].source,
                        repositories[repository as int],
                    ),
                },
                ..self
            }
        } else {
            self.at_project(self.project + 1)
        }
    }

    /// What the discovery is doing, as a person reads it.
    pub open spec fn message(self) -> Seq<char> {
        match self.phase {
            PhaseView::Repositories { .. } => "Scanning project: "@
                + self.projects[self.project as int].source,
            PhaseView::Artifacts { repositories, repository, .. } => "Scanning repository: "@
                + repositories[repository as int],
            PhaseView::Done => "Found "@ + text::decimal(self.images.len()) + " images"@,
        }
    }

    /// The discovery once the page of repositories that it waits for has come.
    pub open spec fn received_repositories(self, names: Seq<Seq<char>>) -> DiscoveryView {
        match self.phase {
            PhaseView::Repositories { listing } => if names.len() < PAGE_SIZE {
                self.at_repository(listing.received(names).found, 0)
            } else {
                DiscoveryView {
                    phase: PhaseView::Repositories { listing: listing.received(names) },
                    ..self
                }
            },
            _ => self,
        }
    }

    /// The discovery once the page of artifacts that it waits for has come.
    pub open spec fn received_artifacts(self, artifacts: Seq<ArtifactView>) -> DiscoveryView {
        match self.phase {
            PhaseView::Artifacts { repositories, repository, listing } => if artifacts.len()
                < PAGE_SIZE {
                DiscoveryView {
                    images: self.images + images_of_artifacts(
                        self.projects[self.project as int],
                        repositories[repository as int],
                        listing.received(artifacts).found,
                    ),
                    ..self
                }.at_repository(repositories, repository + 1)
            } else {
                DiscoveryView {
                    phase: PhaseView::Artifacts {
                        repositories,
                        repository,
                        listing: listing.received(artifacts),
                    },
                    ..self
                }
            },
            _ => self,
        }
    }
}

/// What a discovery is waiting for.
enum Phase {
    Repositories(RepositoryListing),
    Artifacts { repositories: Vec<Repository>, repository: usize, listing: ArtifactListing },
    Done,
}

/// The search for the images of a list of projects.
pub struct Discovery {
    url: String,
    projects: Vec<ProjectConfig>,
    project: usize,
    phase: Phase,
    images: Vec<ImageRef>,
}

/// The page that a discovery wants next.
#[derive(Debug)]
pub enum Request {
    /// A page of repositories.
    Repositories { url: String },
    /// A page of artifacts.
    Artifacts { url: String },
    /// None: the discovery is complete.
    Nothing,
}

impl View for Discovery {
    type V = DiscoveryView;

    closed spec fn view(&self) -> DiscoveryView {
        DiscoveryView {
            url: self.url@,
            projects: project_views(self.projects@),
            project: self.project as nat,
            phase: match self.phase {
                Phase::Repositories(listing) => PhaseView::Repositories { listing: listing@ },
                Phase::Artifacts { repositories, repository, listing } => PhaseView::Artifacts {
                    repositories: repository_names(repositories@),
                    repository: repository as nat,
                    listing: listing@,
                },
                Phase::Done => PhaseView::Done,
            },
            images: image_views(self.images@),
        }
    }
}

/// Appends the images with these tags.
fn push_images(
    images: &mut Vec<ImageRef>,
    project: &ProjectConfig,
    repository: &Repository,
    tags: &Vec<Tag>,
)
    ensures
        image_views(final(images)@) == image_views(old(images)@) + images_of_tags(
            project@,
            repository@,
            tag_names(tags@),
        ),
{
    let ghost before = image_views(images@);
    let ghost added = images_of_tags(project@, repository@, tag_names(tags@));
    assert(before =~= before + added.take(0));
    for i in 0..tags.len()
        invariant
            added == images_of_tags(project@, repository@, tag_names(tags@)),
            image_views(images@) == before + added.take(i as int),
    {
        let image = ImageRef {
            project: project.clone(),
            repository: repository.name.clone(),
            tag: tags[i].name.clone(),
        };
        let ghost current = image_views(images@);
        images.push(image);
        assert(image@ == added[i as int]);
        assert(image_views(images@) =~= current.push(image@));
        assert(added.take(i + 1) =~= added.take(i as int).push(added[i as int]));
        assert(image_views(images@) =~= before + added.take(i + 1));
    }
    assert(added.take(added.len() as int) =~= added);
}

/// Appends the images of the artifacts of a repository.
fn push_artifacts(
    images: &mut Vec<ImageRef>,
    project: &ProjectConfig,
    repository: &Repository,
    artifacts: &Vec<Artifact>,
)
    ensures
        image_views(final(images)@) == image_views(old(images)@) + images_of_artifacts(
            project@,
            repository@,
            artifact_views(artifacts@),
        ),
{
    let ghost before = image_views(images@);
    let ghost views = artifact_views(artifacts@);
    assert(before =~= before + images_of_artifacts(project@, repository@, views.take(0)));
    for i in 0..artifacts.len()
        invariant
            views == artifact_views(artifacts@),
            image_views(images@) == before + images_of_artifacts(
                project@,
                repository@,
                views.take(i as int),
            ),
    {
        let ghost current = image_views(images@);
        assert(views[i as int] == artifacts@[i as int]@);
        assert(views.take(i + 1).drop_last() =~= views.take(i as int));
        match &artifacts[i].tags {
            Some(tags) => {
                push_images(images, project, repository, tags);
            },
            None => {},
        }
        assert(image_views(images@) =~= current + images_of_artifact(
            project@,
            repository@,
            views[i as int],
        ));
        assert(image_views(images@) =~= before + images_of_artifacts(
            project@,
            repository@,
            views.take(i + 1),
        ));
    }
    assert(views.take(views.len() as int) =~= views);
}

impl Discovery {
    /// What is waited for is something that exists.
    pub closed spec fn wf(self) -> bool {
        match self.phase {
            Phase::Repositories(listing) => {
                &&& self.project < self.projects@.len()
                &&& listing.wf()
            },
            Phase::Artifacts { repositories, repository, listing } => {
                &&& self.project < self.projects@.len()
                &&& repository < repositories@.len()
                &&& listing.wf()
            },
            Phase::Done => true,
        }
    }

    /// The search for the images of `projects` in the registry at `url`.
    pub fn new(url: &str, projects: Vec<ProjectConfig>) -> (r: Discovery)
        ensures
            r.wf(),
            r@ == DiscoveryView::start(url@, project_views(projects@)),
    {
        let r = Discovery {
            url: text::owned(url),
            projects,
            project: 0,
            phase: Phase::Done,
            images: Vec::new(),
        };
        assert(r@.images =~= Seq::empty());
        r.at_project(0)
    }

    /// The discovery at the beginning of a project, or at its end.
    fn at_project(self, project: usize) -> (r: Discovery)
        ensures
            r.wf(),
            r@ == self@.at_project(project as nat),
    {
        let phase = if project < self.projects.len() {
            Phase::Repositories(
                RepositoryListing::new(self.url.as_str(), self.projects[project].source.as_str()),
            )
        } else {
            Phase::Done
        };
        Discovery { project, phase, ..self }
    }

    /// The discovery at the beginning of a repository of the current project,
    /// or of the next project.
    fn at_repository(self, repositories: Vec<Repository>, repository: usize) -> (r: Discovery)
        requires
            self.project < self.projects@.len(),
        ensures
            r.wf(),
            r@ == self@.at_repository(repository_names(repositories@), repository as nat),
    {
        if repository < repositories.len() {
            let listing = ArtifactListing::new(
                self.url.as_str(),
                self.projects[self.project].source.as_str(),
                repositories[repository].name.as_str(),
            );
            Discovery { phase: Phase::Artifacts { repositories, repository, listing }, ..self }
        } else {
            let project_count: usize = self.projects.len();
            assert(self.project < project_count);
            let next: usize = self.project + 1;
            self.at_project(next)
        }
    }

    /// The page that is wanted next.
    pub fn request(&self) -> (r: Request)
        ensures
            match r {
                Request::Repositories { url } => {
                    &&& self@.phase matches PhaseView::Repositories { listing }
                    &&& url@ == repositories_url(listing.url, listing.project, listing.page)
                },
                Request::Artifacts { url } => {
                    &&& self@.phase matches PhaseView::Artifacts { listing, .. }
                    &&& url@ == artifacts_url(
                        listing.url,
                        listing.project,
                        listing.repository,
                        listing.page,
                    )
                },
                Request::Nothing => self@.phase is Done,
            },
    {
        match &self.phase {
            Phase::Repositories(listing) => Request::Repositories { url: listing.request() },
            Phase::Artifacts { listing, .. } => Request::Artifacts { url: listing.request() },
            Phase::Done => Request::Nothing,
        }
    }

    /// Takes the status of the answer to a request for repositories, or says
    /// what is wrong with it.
    pub fn accept_repositories(self, status: u16) -> (r: Result<RepositoryAnswer, String>)
        requires
            self.wf(),
            self@.phase is Repositories,
            100 <= status <= 999,
        ensures
            match r {
                Ok(answer) => is_success(status) && answer.wf() && answer@ == self@,
                Err(error) => !is_success(status) && error@ == "Failed to list "@
                    + "repositories"@ + ": "@ + status_line(status),
            },
    {
        match RepositoryListing::check_status(status) {
            Ok(_) => Ok(RepositoryAnswer { discovery: self }),
            Err(error) => Err(error),
        }
    }

    /// Takes the status of the answer to a request for artifacts, or says what
    /// is wrong with it.
    pub fn accept_artifacts(self, status: u16) -> (r: Result<ArtifactAnswer, String>)
        requires
            self.wf(),
            self@.phase is Artifacts,
            100 <= status <= 999,
        ensures
            match r {
                Ok(answer) => is_success(status) && answer.wf() && answer@ == self@,
                Err(error) => !is_success(status) && error@ == "Failed to list "@ + "artifacts"@
                    + ": "@ + status_line(status),
            },
    {
        match ArtifactListing::check_status(status) {
            Ok(_) => Ok(ArtifactAnswer { discovery: self }),
            Err(error) => Err(error),
        }
    }

    /// What the discovery is doing, as a person reads it.
    pub fn message(&self) -> (r: String)
        requires
            self.wf(),
        ensures
            r@ == self@.message(),
            r@ == match self@.phase {
                PhaseView::Repositories { .. } => "Scanning project: "@
                    + self@.projects[self@.project as int].source,
                PhaseView::Artifacts { repositories, repository, .. } => "Scanning repository: "@
                    + repositories[repository as int],
                PhaseView::Done => "Found "@ + text::decimal(self@.images.len()) + " images"@,
            },
    {
        match &self.phase {
            Phase::Repositories(_) => {
                let mut r = text::owned("Scanning project: ");
                r.append(self.projects[self.project].source.as_str());
                r
            },
            Phase::Artifacts { repositories, repository, .. } => {
                let mut r = text::owned("Scanning repository: ");
                r.append(repositories[*repository].name.as_str());
                r
            },
            Phase::Done => {
                let mut r = text::owned("Found ");
                r.append(text::decimal_text(self.images.len()).as_str());
                r.append(" images");
                r
            },
        }
    }

    /// The images that were found.
    pub fn into_images(self) -> (r: Vec<ImageRef>)
        ensures
            image_views(r@) == self@.images,
    {
        self.images
    }
}

/// An accepted answer to a request for repositories, of which the page is still
/// to be read.
pub struct RepositoryAnswer {
    discovery: Discovery,
}

impl View for RepositoryAnswer {
    type V = DiscoveryView;

    closed spec fn view(&self) -> DiscoveryView {
        self.discovery@
    }
}

impl RepositoryAnswer {
    /// The discovery waits for repositories.
    pub closed spec fn wf(self) -> bool {
        self.discovery.wf() && self.discovery@.phase is Repositories
    }

    /// Takes the page of the answer.
    pub fn receive(self, page: Vec<Repository>) -> (r: Discovery)
        requires
            self.wf(),
        ensures
            r.wf(),
            r@ == self@.received_repositories(repository_names(page@)),
    {
        let Discovery { url, projects, project, phase, images } = self.discovery;
        match phase {
            Phase::Repositories(listing) => match listing.receive(page) {
                RepositoryStep::More(listing) => Discovery {
                    url,
                    projects,
                    project,
                    phase: Phase::Repositories(listing),
                    images,
                },
                RepositoryStep::Complete(repositories) => {
                    let rest = Discovery { url, projects, project, phase: Phase::Done, images };
                    rest.at_repository(repositories, 0)
                },
            },
            phase => Discovery { url, projects, project, phase, images },
        }
    }
}

/// An accepted answer to a request for artifacts, of which the page is still to
/// be read.
pub struct ArtifactAnswer {
    discovery: Discovery,
}

impl View for ArtifactAnswer {
    type V = DiscoveryView;

    closed spec fn view(&self) -> DiscoveryView {
        self.discovery@
    }
}

impl ArtifactAnswer {
    /// The discovery waits for artifacts.
    pub closed spec fn wf(self) -> bool {
        self.discovery.wf() && self.discovery@.phase is Artifacts
    }

    /// Takes the page of the answer.
    pub fn receive(self, page: Vec<Artifact>) -> (r: Discovery)
        requires
            self.wf(),
        ensures
            r.wf(),
            r@ == self@.received_artifacts(artifact_views(page@)),
    {
        let Discovery { url, projects, project, phase, images } = self.discovery;
        match phase {
            Phase::Artifacts { repositories, repository, listing } => match listing.receive(page) {
                ArtifactStep::More(listing) => Discovery {
                    url,
                    projects,
                    project,
                    phase: Phase::Artifacts { repositories, repository, listing },
                    images,
                },
                ArtifactStep::Complete(artifacts) => {
                    let mut images = images;
                    push_artifacts(
                        &mut images,
                        &projects[project],
                        &repositories[repository],
                        &artifacts,
                    );
                    let repository_count: usize = repositories.len();
                    assert(repository < repository_count);
                    let rest = Discovery { url, projects, project, phase: Phase::Done, images };
                    rest.at_repository(repositories, repository + 1)
                },
            },
            phase => Discovery { url, projects, project, phase, images },
        }
    }
}

/// Each tag is an image of the project and the repository: as many images as
/// tags, in their order.
pub proof fn law_each_tag_is_an_image(
    project: ProjectView,
    repository: Seq<char>,
    tags: Seq<Seq<char>>,
)
    ensures
        ({
            let images = images_of_artifact(project, repository, Some(tags));
            &&& images.len() == tags.len()
            &&& forall|i: int|
                0 <= i < tags.len() ==> {
                    &&& (#[trigger] images[i]).project == project
                    &&& images[i].repository == repository
                    &&& images[i].tag == tags[i]
                }
        }),
        images_of_tags(project, repository, tags) == images_of_artifact(
            project,
            repository,
            Some(tags),
        ),
        images_of_artifact(project, repository, None).len() == 0,
{
}

/// The artifacts of a repository are gone through one by one: two lists in a
/// row have the images of the one and then those of the other, and a list of
/// one has the images of that one.
pub proof fn law_artifacts_are_gone_through_one_by_one(
    project: ProjectView,
    repository: Seq<char>,
    a: Seq<ArtifactView>,
    b: Seq<ArtifactView>,
    artifact: ArtifactView,
)
    ensures
        images_of_artifacts(project, repository, a + b) == images_of_artifacts(
            project,
            repository,
            a,
        ) + images_of_artifacts(project, repository, b),
        images_of_artifacts(project, repository, seq![artifact]) == images_of_artifact(
            project,
            repository,
            artifact,
        ),
        images_of_artifacts(project, repository, Seq::empty()).len() == 0,
    decreases b.len(),
{
    let nothing = images_of_artifacts(project, repository, Seq::empty());
    assert(nothing =~= Seq::empty());
    assert(seq![artifact].drop_last() =~= Seq::empty());
    assert(images_of_artifacts(project, repository, seq![artifact]) =~= images_of_artifact(
        project,
        repository,
        artifact,
    ));
    if b.len() == 0 {
        assert(a + b =~= a);
        assert(b =~= Seq::empty());
    } else {
        law_artifacts_are_gone_through_one_by_one(project, repository, a, b.drop_last(), artifact);
        assert((a + b).drop_last() =~= a + b.drop_last());
        assert(images_of_artifacts(project, repository, a + b) =~= images_of_artifacts(
            project,
            repository,
            a,
        ) + images_of_artifacts(project, repository, b));
    }
}

/// Images are seen one by one, in their order.
pub proof fn law_each_image_is_seen(images: Seq<ImageRef>)
    ensures
        image_views(images).len() == images.len(),
        forall|i: int| 0 <= i < images.len() ==> #[trigger] image_views(images)[i] == images[i]@,
{
}

/// Where a discovery is at the beginning of a project: it waits for the first
/// page of its repositories, from its own registry. Past the last project it is
/// complete. It keeps what it has found.
pub proof fn law_discovery_begins_a_project(discovery: DiscoveryView, project: nat)
    ensures
        ({
            let next = discovery.at_project(project);
            &&& next.url == discovery.url
            &&& next.projects == discovery.projects
            &&& next.images == discovery.images
            &&& next.project == project
            &&& project >= discovery.projects.len() ==> next.phase is Done
            &&& project < discovery.projects.len() ==> {
                &&& next.phase matches PhaseView::Repositories { listing }
                &&& listing.url == discovery.url
                &&& listing.project == discovery.projects[project as int].source
                &&& listing.page == 1
                &&& listing.found.len() == 0
            }
        }),
        ({
            let start = DiscoveryView::start(discovery.url, discovery.projects);
            &&& start.url == discovery.url
            &&& start.projects == discovery.projects
            &&& start.images.len() == 0
            &&& start.project == 0
            &&& start.phase is Done <==> discovery.projects.len() == 0
            &&& start.phase == discovery.at_project(0).phase
        }),
{
}

/// A full page of repositories leads to the next one. One that is not full
/// leads to the artifacts of the first repository that was found, or to the
/// next project where none was found.
pub proof fn law_page_of_repositories(
    discovery: DiscoveryView,
    listing: RepositoryListingView,
    names: Seq<Seq<char>>,
)
    requires
        discovery.phase == (PhaseView::Repositories { listing }),
    ensures
        ({
            let next = discovery.received_repositories(names);
            let found = listing.received(names).found;
            &&& next.url == discovery.url
            &&& next.projects == discovery.projects
            &&& next.images == discovery.images
            &&& names.len() >= 100 ==> {
                &&& next.project == discovery.project
                &&& next.phase == (PhaseView::Repositories { listing: listing.received(names) })
            }
            &&& names.len() < 100 && found.len() > 0 ==> {
                &&& next.project == discovery.project
                &&& next.phase matches PhaseView::Artifacts { repositories, repository, listing: l }
                &&& repositories == found
                &&& repository == 0
                &&& l.url == discovery.url
                &&& l.project == discovery.projects[discovery.project as int].source
                &&& l.repository == found[0]
                &&& l.page == 1
                &&& l.found.len() == 0
            }
            &&& names.len() < 100 && found.len() == 0 ==> next == discovery.at_project(
                discovery.project + 1,
            )
        }),
{
}

/// A full page of artifacts leads to the next one. One that is not full adds
/// the images of all artifacts that were found for the repository, and leads to
/// the next repository, or to the next project after the last.
pub proof fn law_page_of_artifacts(
    discovery: DiscoveryView,
    repositories: Seq<Seq<char>>,
    repository: nat,
    listing: ArtifactListingView,
    artifacts: Seq<ArtifactView>,
)
    requires
        discovery.phase == (PhaseView::Artifacts { repositories, repository, listing }),
    ensures
        ({
            let next = discovery.received_artifacts(artifacts);
            let added = images_of_artifacts(
                discovery.projects[discovery.project as int],
                repositories[repository as int],
                listing.found + artifacts,
            );
            &&& next.url == discovery.url
            &&& next.projects == discovery.projects
            &&& artifacts.len() >= 100 ==> {
                &&& next.images == discovery.images
                &&& next.project == discovery.project
                &&& next.phase == (PhaseView::Artifacts {
                    repositories,
                    repository,
                    listing: listing.received(artifacts),
                })
            }
            &&& artifacts.len() < 100 ==> next.images == discovery.images + added
            &&& artifacts.len() < 100 && repository + 1 < repositories.len() ==> {
                &&& next.project == discovery.project
                &&& next.phase matches PhaseView::Artifacts {
                    repositories: rs,
                    repository: r,
                    listing: l,
                }
                &&& rs == repositories
                &&& r == repository + 1
                &&& l.url == discovery.url
                &&& l.project == discovery.projects[discovery.project as int].source
                &&& l.repository == repositories[(repository + 1) as int]
                &&& l.page == 1
                &&& l.found.len() == 0
            }
            &&& artifacts.len() < 100 && repository + 1 >= repositories.len() ==> {
                &&& next.project == discovery.project + 1
                &&& next.phase == discovery.at_project(discovery.project + 1).phase
            }
        }),
{
}

/// What a discovery says of itself is where it is: the whole name of the
/// project or of the repository that it is at, or in the end how many images it
/// has found.
pub proof fn law_message_says_where_the_discovery_is(discovery: DiscoveryView)
    ensures
        match discovery.phase {
            PhaseView::Repositories { .. } => {
                &&& discovery.message().take(18) == "Scanning project: "@
                &&& discovery.message().skip(18)
                    == discovery.projects[discovery.project as int].source
            },
            PhaseView::Artifacts { repositories, repository, .. } => {
                &&& discovery.message().take(21) == "Scanning repository: "@
                &&& discovery.message().skip(21) == repositories[repository as int]
            },
            PhaseView::Done => {
                let n = discovery.message().len() - 7;
                &&& discovery.message().take(6) == "Found "@
                &&& discovery.message().subrange(6, n) == text::decimal(discovery.images.len())
                &&& discovery.message().skip(n) == " images"@
            },
        },
{
    reveal_strlit("Scanning project: ");
    reveal_strlit("Scanning repository: ");
    reveal_strlit("Found ");
    reveal_strlit(" images");
    let message = discovery.message();
    match discovery.phase {
        PhaseView::Repositories { .. } => {
            assert(message.take(18) =~= "Scanning project: "@);
            assert(message.skip(18) =~= discovery.projects[discovery.project as int].source);
        },
        PhaseView::Artifacts { repositories, repository, .. } => {
            assert(message.take(21) =~= "Scanning repository: "@);
            assert(message.skip(21) =~= repositories[repository as int]);
        },
        PhaseView::Done => {
            let n = message.len() - 7;
            assert(message.take(6) =~= "Found "@);
            assert(message.subrange(6, n) =~= text::decimal(discovery.images.len()));
            assert(message.skip(n) =~= " images"@);
        },
    }
}

} // verus!
