//! A registry as a discovery meets it, and what a discovery finds there.

use vstd::prelude::*;

use crate::config::ProjectView;
use crate::discovery::{images_of_artifact, images_of_artifacts, DiscoveryView, PhaseView};
use crate::image::ImageView;
use crate::listing::{
    all_within_project, artifacts_url, encoded_repository, law_request_for_artifacts,
    law_request_for_repositories, repositories_url, within_project, ArtifactListingView,
    ArtifactView, RepositoryListingView, PAGE_SIZE,
};
use crate::text;

verus! {

/// What a registry holds: the repositories of each project, by their full
/// names, and the artifacts of each repository, which goes by its name within
/// the project.
pub struct RegistryView {
    pub repositories: spec_fn(Seq<char>) -> Seq<Seq<char>>,
    pub artifacts: spec_fn(Seq<char>, Seq<char>) -> Seq<ArtifactView>,
}

/// A page of a listing; the first is page 1, and past the end pages are empty.
pub open spec fn page_of<T>(all: Seq<T>, page: nat) -> Seq<T> {
    let start = (page - 1) * PAGE_SIZE;
    let end = start + PAGE_SIZE;
    all.subrange(
        if start < all.len() {
            start
        } else {
            all.len() as int
        },
        if end < all.len() {
            end
        } else {
            all.len() as int
        },
    )
}

impl RegistryView {
    /// The discovery once the registry has answered its request.
    pub open spec fn answer(self, discovery: DiscoveryView) -> DiscoveryView {
        match discovery.phase {
            PhaseView::Repositories { listing } => discovery.received_repositories(
                page_of((self.repositories)(listing.project), listing.page),
            ),
            PhaseView::Artifacts { listing, .. } => discovery.received_artifacts(
                page_of((self.artifacts)(listing.project, listing.repository), listing.page),
            ),
            PhaseView::Done => discovery,
        }
    }

    /// The discovery once the registry has answered `n` requests.
    pub open spec fn answers(self, discovery: DiscoveryView, n: nat) -> DiscoveryView
        decreases n,
    {
        if n == 0 {
            discovery
        } else {
            self.answers(self.answer(discovery), (n - 1) as nat)
        }
    }

    /// The images of the first `n` of a project's repositories.
    pub open spec fn images_of_repositories(
        self,
        project: ProjectView,
        repositories: Seq<Seq<char>>,
        n: nat,
    ) -> Seq<ImageView>
        decreases n,
    {
        if n == 0 {
            Seq::empty()
        } else {
            let repository = repositories[n - 1];
            self.images_of_repositories(project, repositories, (n - 1) as nat)
                + images_of_artifacts(
                project,
                repository,
                (self.artifacts)(project.source, repository),
            )
        }
    }

    /// The images of a project.
    pub open spec fn images_of_project(self, project: ProjectView) -> Seq<ImageView> {
        let repositories = all_within_project((self.repositories)(project.source));
        self.images_of_repositories(project, repositories, repositories.len())
    }

    /// The images of the first `n` of a list of projects.
    pub open spec fn images_of_projects(self, projects: Seq<ProjectView>, n: nat) -> Seq<ImageView>
        decreases n,
    {
        if n == 0 {
            Seq::empty()
        } else {
            self.images_of_projects(projects, (n - 1) as nat) + self.images_of_project(
                projects[n - 1],
            )
        }
    }
}

/// Answering `n` requests and then `m` more is answering `n + m`.
proof fn lemma_answers_add(registry: RegistryView, discovery: DiscoveryView, n: nat, m: nat)
    ensures
        registry.answers(registry.answers(discovery, n), m) == registry.answers(discovery, n + m),
    decreases n,
{
    if n > 0 {
        lemma_answers_add(registry, registry.answer(discovery), (n - 1) as nat, m);
    }
}

/// A listing of artifacts that has come to some page comes to its end.
proof fn lemma_artifacts_are_listed(
    registry: RegistryView,
    base: DiscoveryView,
    repositories: Seq<Seq<char>>,
    repository: nat,
    page: nat,
) -> (n: nat)
    requires
        base.project < base.projects.len(),
        repository < repositories.len(),
        page >= 1,
        (page - 1) * PAGE_SIZE <= (registry.artifacts)(
            base.projects[base.project as int].source,
            repositories[repository as int],
        ).len(),
    ensures
        ({
            let project = base.projects[base.project as int];
            let name = repositories[repository as int];
            let all = (registry.artifacts)(project.source, name);
            registry.answers(
                DiscoveryView {
                    phase: PhaseView::Artifacts {
                        repositories,
                        repository,
                        listing: ArtifactListingView {
                            url: base.url,
                            project: project.source,
                            repository: name,
                            page,
                            found: all.take((page - 1) * PAGE_SIZE),
                        },
                    },
                    ..base
                },
                n,
            ) == (DiscoveryView {
                images: base.images + images_of_artifacts(project, name, all),
                ..base
            }).at_repository(repositories, repository + 1)
        }),
    decreases
            (registry.artifacts)(
                base.projects[base.project as int].source,
                repositories[repository as int],
            ).len() + PAGE_SIZE - (page - 1) * PAGE_SIZE,
{
    let project = base.projects[base.project as int];
    let name = repositories[repository as int];
    let all = (registry.artifacts)(project.source, name);
    let start = (page - 1) * PAGE_SIZE;
    let listing = ArtifactListingView {
        url: base.url,
        project: project.source,
        repository: name,
        page,
        found: all.take(start),
    };
    let here = DiscoveryView {
        phase: PhaseView::Artifacts { repositories, repository, listing },
        ..base
    };
    let received = page_of(all, page);
    if received.len() < PAGE_SIZE {
        assert(listing.received(received).found =~= all);
        assert(registry.answers(registry.answer(here), 0) == registry.answer(here));
        assert(registry.answers(here, 1) == registry.answers(registry.answer(here), 0));
        1
    } else {
        assert(listing.received(received).found =~= all.take(page * PAGE_SIZE));
        let m = lemma_artifacts_are_listed(registry, base, repositories, repository, page + 1);
        assert(registry.answers(here, m + 1) == registry.answers(registry.answer(here), m));
        m + 1
    }
}

/// The repositories of a project from some place on are searched to the last.
proof fn lemma_repositories_are_searched(
    registry: RegistryView,
    base: DiscoveryView,
    repositories: Seq<Seq<char>>,
    repository: nat,
) -> (n: nat)
    requires
        base.project < base.projects.len(),
        repository <= repositories.len(),
    ensures
        ({
            let project = base.projects[base.project as int];
            registry.answers(
                (DiscoveryView {
                    images: base.images + registry.images_of_repositories(
                        project,
                        repositories,
                        repository,
                    ),
                    ..base
                }).at_repository(repositories, repository),
                n,
            ) == (DiscoveryView {
                images: base.images + registry.images_of_repositories(
                    project,
                    repositories,
                    repositories.len(),
                ),
                ..base
            }).at_project(base.project + 1)
        }),
    decreases repositories.len() - repository,
{
    let project = base.projects[base.project as int];
    let current = DiscoveryView {
        images: base.images + registry.images_of_repositories(project, repositories, repository),
        ..base
    };
    let here = current.at_repository(repositories, repository);
    if repository == repositories.len() {
        assert(registry.answers(here, 0) == here);
        0
    } else {
        let name = repositories[repository as int];
        let all = (registry.artifacts)(project.source, name);
        assert(all.take(0) =~= Seq::empty());
        let first = lemma_artifacts_are_listed(registry, current, repositories, repository, 1);
        let next = DiscoveryView {
            images: current.images + images_of_artifacts(project, name, all),
            ..current
        };
        assert(next.images =~= base.images + registry.images_of_repositories(
            project,
            repositories,
            repository + 1,
        ));
        let rest = lemma_repositories_are_searched(registry, base, repositories, repository + 1);
        lemma_answers_add(registry, here, first, rest);
        first + rest
    }
}

/// A listing of repositories that has come to some page comes to its end.
proof fn lemma_repositories_are_listed(
    registry: RegistryView,
    base: DiscoveryView,
    page: nat,
) -> (n: nat)
    requires
        base.project < base.projects.len(),
        page >= 1,
        (page - 1) * PAGE_SIZE <= (registry.repositories)(
            base.projects[base.project as int].source,
        ).len(),
    ensures
        ({
            let project = base.projects[base.project as int];
            let all = (registry.repositories)(project.source);
            registry.answers(
                DiscoveryView {
                    phase: PhaseView::Repositories {
                        listing: RepositoryListingView {
                            url: base.url,
                            project: project.source,
                            page,
                            found: all_within_project(all.take((page - 1) * PAGE_SIZE)),
                        },
                    },
                    ..base
                },
                n,
            ) == base.at_repository(all_within_project(all), 0)
        }),
    decreases
            (registry.repositories)(base.projects[base.project as int].source).len() + PAGE_SIZE
                - (page - 1) * PAGE_SIZE,
{
    let project = base.projects[base.project as int];
    let all = (registry.repositories)(project.source);
    let listing = RepositoryListingView {
        url: base.url,
        project: project.source,
        page,
        found: all_within_project(all.take((page - 1) * PAGE_SIZE)),
    };
    let here = DiscoveryView { phase: PhaseView::Repositories { listing }, ..base };
    let received = page_of(all, page);
    if received.len() < PAGE_SIZE {
        assert(listing.received(received).found =~= all_within_project(all));
        assert(registry.answers(registry.answer(here), 0) == registry.answer(here));
        assert(registry.answers(here, 1) == registry.answers(registry.answer(here), 0));
        1
    } else {
        assert(listing.received(received).found =~= all_within_project(all.take(page * PAGE_SIZE)));
        let m = lemma_repositories_are_listed(registry, base, page + 1);
        assert(registry.answers(here, m + 1) == registry.answers(registry.answer(here), m));
        m + 1
    }
}

/// The projects from some place on are searched to the last.
proof fn lemma_projects_are_searched(
    registry: RegistryView,
    base: DiscoveryView,
    project: nat,
) -> (n: nat)
    requires
        project <= base.projects.len(),
    ensures
        registry.answers(
            (DiscoveryView {
                images: registry.images_of_projects(base.projects, project),
                ..base
            }).at_project(project),
            n,
        ) == (DiscoveryView {
            images: registry.images_of_projects(base.projects, base.projects.len()),
            ..base
        }).at_project(base.projects.len()),
    decreases base.projects.len() - project,
{
    let current = DiscoveryView {
        project,
        images: registry.images_of_projects(base.projects, project),
        ..base
    };
    let here = current.at_project(project);
    if project == base.projects.len() {
        assert(registry.answers(here, 0) == here);
        0
    } else {
        let mapping = base.projects[project as int];
        let all = (registry.repositories)(mapping.source);
        let repositories = all_within_project(all);
        assert(all_within_project(all.take(0)) =~= Seq::empty());
        let listed = lemma_repositories_are_listed(registry, current, 1);
        assert(current.images =~= current.images + registry.images_of_repositories(
            mapping,
            repositories,
            0,
        ));
        let searched = lemma_repositories_are_searched(registry, current, repositories, 0);
        lemma_answers_add(registry, here, listed, searched);
        let rest = lemma_projects_are_searched(registry, base, project + 1);
        lemma_answers_add(registry, here, listed + searched, rest);
        listed + searched + rest
    }
}

/// A discovery comes to its end, and what it has found then is every tag of
/// every artifact of every repository of the projects: each once, in the order
/// of the projects and of the registry's listings, however long these are.
pub proof fn law_discovery_finds_every_image(
    registry: RegistryView,
    url: Seq<char>,
    projects: Seq<ProjectView>,
)
    ensures
        exists|n: nat|
            ({
                let end = #[trigger] registry.answers(DiscoveryView::start(url, projects), n);
                &&& end.phase is Done
                &&& end.images == registry.images_of_projects(projects, projects.len())
            }),
{
    let base = DiscoveryView {
        url,
        projects,
        project: 0,
        phase: PhaseView::Done,
        images: Seq::empty(),
    };
    let n = lemma_projects_are_searched(registry, base, 0);
    let end = registry.answers(DiscoveryView::start(url, projects), n);
    assert(end.phase is Done);
}

/// The images of the first projects of a list are those of a longer list that
/// begins with it.
proof fn lemma_images_of_first_projects(
    registry: RegistryView,
    first: Seq<ProjectView>,
    second: Seq<ProjectView>,
    n: nat,
)
    requires
        n <= first.len(),
    ensures
        registry.images_of_projects(first + second, n) == registry.images_of_projects(first, n),
    decreases n,
{
    if n > 0 {
        lemma_images_of_first_projects(registry, first, second, (n - 1) as nat);
    }
}

/// To search two lists of projects in turn is to search the one list that they
/// make up: the images of the first come first, and then those of the second.
pub proof fn law_lists_of_projects_add_up(
    registry: RegistryView,
    first: Seq<ProjectView>,
    second: Seq<ProjectView>,
)
    ensures
        registry.images_of_projects(first + second, (first + second).len())
            == registry.images_of_projects(first, first.len()) + registry.images_of_projects(
            second,
            second.len(),
        ),
    decreases second.len(),
{
    if second.len() == 0 {
        assert(first + second =~= first);
        assert(registry.images_of_projects(first, first.len()) =~= registry.images_of_projects(
            first,
            first.len(),
        ) + registry.images_of_projects(second, 0));
    } else {
        let rest = second.drop_last();
        let n = (first.len() + rest.len()) as nat;
        law_lists_of_projects_add_up(registry, first, rest);
        assert(first + second =~= (first + rest) + seq![second.last()]);
        assert(second =~= rest + seq![second.last()]);
        lemma_images_of_first_projects(registry, first + rest, seq![second.last()], n);
        lemma_images_of_first_projects(registry, rest, seq![second.last()], rest.len());
        assert(registry.images_of_projects(first + second, n + 1) =~= registry.images_of_projects(
            first,
            first.len(),
        ) + registry.images_of_projects(second, second.len()));
    }
}

/// A page holds the entries of a listing from its place on, a hundred of them
/// as long as there are so many.
pub proof fn law_page_of_a_listing<T>(all: Seq<T>, page: nat)
    requires
        page >= 1,
    ensures
        ({
            let start = 100 * (page - 1);
            let entries = page_of(all, page);
            &&& entries.len() <= 100
            &&& entries.len() < 100 ==> start + entries.len() >= all.len()
            &&& entries.len() > 0 ==> start + entries.len() <= all.len()
            &&& forall|i: int|
                0 <= i < entries.len() ==> #[trigger] entries[i] == all[start + i]
        }),
{
}

/// What answers the requests of a discovery, by nothing but their URLs.
pub struct ServerView {
    pub repositories: spec_fn(Seq<char>) -> Seq<Seq<char>>,
    pub artifacts: spec_fn(Seq<char>) -> Seq<ArtifactView>,
}

impl ServerView {
    /// Whether a page of the repositories of a project of `registry` is to be
    /// had at its place below `url`.
    pub open spec fn has_repositories(
        self,
        registry: RegistryView,
        url: Seq<char>,
        project: Seq<char>,
        page: nat,
    ) -> bool {
        (self.repositories)(
            url + "/api/v2.0/projects/"@ + project + "/repositories?page="@ + text::decimal(page)
                + "&page_size=100"@,
        ) == page_of((registry.repositories)(project), page)
    }

    /// Whether a page of the artifacts of a repository of `registry` is to be
    /// had at its place below `url`.
    pub open spec fn has_artifacts(
        self,
        registry: RegistryView,
        url: Seq<char>,
        project: Seq<char>,
        repository: Seq<char>,
        page: nat,
    ) -> bool {
        (self.artifacts)(
            url + "/api/v2.0/projects/"@ + project + "/repositories/"@ + encoded_repository(
                repository,
            ) + "/artifacts?page="@ + text::decimal(page) + "&page_size=100&with_tag=true"@,
        ) == page_of((registry.artifacts)(project, repository), page)
    }

    /// Whether all that `registry` holds of these projects is to be had below
    /// `url`.
    pub open spec fn serves(
        self,
        registry: RegistryView,
        url: Seq<char>,
        projects: Seq<ProjectView>,
    ) -> bool {
        &&& forall|p: int, page: nat|
            0 <= p < projects.len() && page >= 1 ==> #[trigger] self.has_repositories(
                registry,
                url,
                projects[p].source,
                page,
            )
        &&& forall|p: int, i: int, page: nat|
            0 <= p < projects.len() && 0 <= i < (registry.repositories)(projects[p].source).len()
                && page >= 1 ==> #[trigger] self.has_artifacts(
                registry,
                url,
                projects[p].source,
                within_project((registry.repositories)(projects[p].source)[i]),
                page,
            )
    }

    /// The discovery once its request has been answered.
    pub open spec fn reply(self, discovery: DiscoveryView) -> DiscoveryView {
        match discovery.phase {
            PhaseView::Repositories { listing } => discovery.received_repositories(
                (self.repositories)(repositories_url(listing.url, listing.project, listing.page)),
            ),
            PhaseView::Artifacts { listing, .. } => discovery.received_artifacts(
                (self.artifacts)(
                    artifacts_url(listing.url, listing.project, listing.repository, listing.page),
                ),
            ),
            PhaseView::Done => discovery,
        }
    }

    /// The discovery once `n` requests have been answered.
    pub open spec fn replies(self, discovery: DiscoveryView, n: nat) -> DiscoveryView
        decreases n,
    {
        if n == 0 {
            discovery
        } else {
            self.replies(self.reply(discovery), (n - 1) as nat)
        }
    }
}

/// What holds of a discovery of these projects all the time.
spec fn is_on_track(
    registry: RegistryView,
    url: Seq<char>,
    projects: Seq<ProjectView>,
    discovery: DiscoveryView,
) -> bool {
    let source = projects[discovery.project as int].source;
    let all = (registry.repositories)(source);
    &&& discovery.url == url
    &&& discovery.projects == projects
    &&& match discovery.phase {
        PhaseView::Repositories { listing } => {
            &&& discovery.project < projects.len()
            &&& listing.url == url
            &&& listing.project == source
            &&& listing.page >= 1
            &&& (listing.page - 1) * PAGE_SIZE <= all.len()
            &&& listing.found == all_within_project(all.take((listing.page - 1) * PAGE_SIZE))
        },
        PhaseView::Artifacts { repositories, repository, listing } => {
            &&& discovery.project < projects.len()
            &&& repositories == all_within_project(all)
            &&& repository < repositories.len()
            &&& listing.url == url
            &&& listing.project == source
            &&& listing.repository == repositories[repository as int]
            &&& listing.page >= 1
        },
        PhaseView::Done => true,
    }
}

/// At the beginning of a project a discovery is on track.
proof fn lemma_project_on_track(
    registry: RegistryView,
    url: Seq<char>,
    projects: Seq<ProjectView>,
    discovery: DiscoveryView,
    project: nat,
)
    requires
        discovery.url == url,
        discovery.projects == projects,
    ensures
        is_on_track(registry, url, projects, discovery.at_project(project)),
{
    if project < projects.len() {
        let all = (registry.repositories)(projects[project as int].source);
        assert(all_within_project(all.take(0)) =~= Seq::empty());
    }
}

/// A discovery that is on track is answered by a server as by the registry that
/// it serves, and stays on track.
proof fn lemma_reply_is_answer(
    server: ServerView,
    registry: RegistryView,
    url: Seq<char>,
    projects: Seq<ProjectView>,
    discovery: DiscoveryView,
)
    requires
        server.serves(registry, url, projects),
        is_on_track(registry, url, projects, discovery),
    ensures
        server.reply(discovery) == registry.answer(discovery),
        is_on_track(registry, url, projects, registry.answer(discovery)),
{
    let p = discovery.project as int;
    let source = projects[p].source;
    let all = (registry.repositories)(source);
    lemma_project_on_track(registry, url, projects, discovery, (p + 1) as nat);
    match discovery.phase {
        PhaseView::Repositories { listing } => {
            assert(server.has_repositories(registry, url, projects[p].source, listing.page));
            lemma_repositories_url(url, source, listing.page);
            let received = page_of(all, listing.page);
            if received.len() < PAGE_SIZE {
                assert(listing.received(received).found =~= all_within_project(all));
            } else {
                assert(listing.received(received).found =~= all_within_project(
                    all.take(listing.page * PAGE_SIZE),
                ));
            }
        },
        PhaseView::Artifacts { repositories, repository, listing } => {
            let i = repository as int;
            assert(listing.repository == within_project(all[i]));
            assert(server.has_artifacts(
                registry,
                url,
                projects[p].source,
                within_project((registry.repositories)(projects[p].source)[i]),
                listing.page,
            ));
            lemma_artifacts_url(url, source, listing.repository, listing.page);
            let received = page_of(
                (registry.artifacts)(source, listing.repository),
                listing.page,
            );
            if received.len() < PAGE_SIZE && repository + 1 >= repositories.len() {
                lemma_project_on_track(
                    registry,
                    url,
                    projects,
                    DiscoveryView {
                        images: registry.answer(discovery).images,
                        ..discovery
                    },
                    (p + 1) as nat,
                );
            }
        },
        PhaseView::Done => {},
    }
}

/// The URL of a page of repositories, in one piece.
proof fn lemma_repositories_url(url: Seq<char>, project: Seq<char>, page: nat)
    ensures
        repositories_url(url, project, page) == url + "/api/v2.0/projects/"@ + project
            + "/repositories?page="@ + text::decimal(page) + "&page_size=100"@,
{
    law_request_for_repositories(url, project, page);
    reveal_strlit("/api/v2.0/projects/");
    let request = repositories_url(url, project, page);
    let whole = url + "/api/v2.0/projects/"@ + project + "/repositories?page="@ + text::decimal(
        page,
    ) + "&page_size=100"@;
    let start = (url.len() + 19) as int;
    let end = start + project.len();
    assert(request =~= request.take(url.len() as int) + request.subrange(url.len() as int, start)
        + request.subrange(start, end) + request.skip(end));
    assert(request =~= whole);
}

/// The URL of a page of artifacts, in one piece.
proof fn lemma_artifacts_url(
    url: Seq<char>,
    project: Seq<char>,
    repository: Seq<char>,
    page: nat,
)
    ensures
        artifacts_url(url, project, repository, page) == url + "/api/v2.0/projects/"@ + project
            + "/repositories/"@ + encoded_repository(repository) + "/artifacts?page="@
            + text::decimal(page) + "&page_size=100&with_tag=true"@,
{
    law_request_for_artifacts(url, project, repository, page);
    reveal_strlit("/api/v2.0/projects/");
    reveal_strlit("/repositories/");
    let request = artifacts_url(url, project, repository, page);
    let segment = encoded_repository(repository);
    let whole = url + "/api/v2.0/projects/"@ + project + "/repositories/"@ + segment
        + "/artifacts?page="@ + text::decimal(page) + "&page_size=100&with_tag=true"@;
    let start = (url.len() + 19) as int;
    let end = start + project.len();
    let segment_end = end + 14 + segment.len();
    assert(request =~= request.take(url.len() as int) + request.subrange(url.len() as int, start)
        + request.subrange(start, end) + request.subrange(end, end + 14) + request.subrange(
        end + 14,
        segment_end,
    ) + request.skip(segment_end));
    assert(request =~= whole);
}

/// A discovery that is on track goes as it would with the registry.
proof fn lemma_replies_are_answers(
    server: ServerView,
    registry: RegistryView,
    url: Seq<char>,
    projects: Seq<ProjectView>,
    discovery: DiscoveryView,
    n: nat,
)
    requires
        server.serves(registry, url, projects),
        is_on_track(registry, url, projects, discovery),
    ensures
        server.replies(discovery, n) == registry.answers(discovery, n),
    decreases n,
{
    if n > 0 {
        lemma_reply_is_answer(server, registry, url, projects, discovery);
        lemma_replies_are_answers(
            server,
            registry,
            url,
            projects,
            registry.answer(discovery),
            (n - 1) as nat,
        );
    }
}

/// What is made of a list is what is made of all but its last entry, and then
/// of the last.
proof fn lemma_flat_map_last<A, B>(s: Seq<A>, f: spec_fn(A) -> Seq<B>)
    requires
        s.len() > 0,
    ensures
        s.flat_map(f) == s.drop_last().flat_map(f) + f(s.last()),
{
    let rest = s.drop_last().map_values(f);
    assert(s.map_values(f) =~= rest.push(f(s.last())));
    rest.lemma_flatten_push(f(s.last()));
}

/// The images of artifacts, gathered from all tags of all of them.
proof fn lemma_artifacts_gathered(
    project: ProjectView,
    repository: Seq<char>,
    artifacts: Seq<ArtifactView>,
    f: spec_fn(ArtifactView) -> Seq<ImageView>,
)
    requires
        forall|a: ArtifactView| #[trigger] f(a) == images_of_artifact(project, repository, a),
    ensures
        images_of_artifacts(project, repository, artifacts) == artifacts.flat_map(f),
    decreases artifacts.len(),
{
    if artifacts.len() > 0 {
        lemma_artifacts_gathered(project, repository, artifacts.drop_last(), f);
        lemma_flat_map_last(artifacts, f);
    } else {
        assert(artifacts.map_values(f) =~= Seq::empty());
        assert(artifacts.flat_map(f) =~= Seq::empty());
    }
}

/// The images of the first repositories of a project, gathered from all of
/// them.
proof fn lemma_repositories_gathered(
    registry: RegistryView,
    project: ProjectView,
    names: Seq<Seq<char>>,
    n: nat,
    f: spec_fn(Seq<char>) -> Seq<ImageView>,
)
    requires
        n <= names.len(),
        forall|name: Seq<char>| #[trigger]
            f(name) == images_of_artifacts(
                project,
                within_project(name),
                (registry.artifacts)(project.source, within_project(name)),
            ),
    ensures
        registry.images_of_repositories(project, all_within_project(names), n) == names.take(
            n as int,
        ).flat_map(f),
    decreases n,
{
    let first = names.take(n as int);
    if n > 0 {
        lemma_repositories_gathered(registry, project, names, (n - 1) as nat, f);
        lemma_flat_map_last(first, f);
        assert(first.drop_last() =~= names.take(n - 1));
        assert(first.last() == names[n - 1]);
    } else {
        assert(first.map_values(f) =~= Seq::empty());
        assert(first.flat_map(f) =~= Seq::empty());
    }
}

/// The images of the first of a list of projects, gathered from all of them.
proof fn lemma_projects_gathered(
    registry: RegistryView,
    projects: Seq<ProjectView>,
    n: nat,
    f: spec_fn(ProjectView) -> Seq<ImageView>,
)
    requires
        n <= projects.len(),
        forall|p: ProjectView| #[trigger] f(p) == registry.images_of_project(p),
    ensures
        registry.images_of_projects(projects, n) == projects.take(n as int).flat_map(f),
    decreases n,
{
    let first = projects.take(n as int);
    if n > 0 {
        lemma_projects_gathered(registry, projects, (n - 1) as nat, f);
        lemma_flat_map_last(first, f);
        assert(first.drop_last() =~= projects.take(n - 1));
        assert(first.last() == projects[n - 1]);
    } else {
        assert(first.map_values(f) =~= Seq::empty());
        assert(first.flat_map(f) =~= Seq::empty());
    }
}

/// What a discovery finds, told by the registry alone: it goes through the
/// projects, through the repositories that the registry lists for each, through
/// the artifacts that the registry lists for each, and through the tags of
/// each, and every tag is an image with that project, that repository and that
/// tag. So it does against anything that has the pages of the registry at their
/// URLs.
pub proof fn law_discovery_finds_every_tag(
    server: ServerView,
    registry: RegistryView,
    url: Seq<char>,
    projects: Seq<ProjectView>,
)
    requires
        server.serves(registry, url, projects),
    ensures
        exists|n: nat|
            ({
                let end = #[trigger] server.replies(DiscoveryView::start(url, projects), n);
                &&& end.phase is Done
                &&& end.images == projects.flat_map(
                    |project: ProjectView|
                        (registry.repositories)(project.source).flat_map(
                            |name: Seq<char>|
                                (registry.artifacts)(
                                    project.source,
                                    within_project(name),
                                ).flat_map(
                                    |artifact: ArtifactView|
                                        match artifact {
                                            Some(tags) => tags.map_values(
                                                |tag: Seq<char>|
                                                    ImageView {
                                                        project,
                                                        repository: within_project(name),
                                                        tag,
                                                    },
                                            ),
                                            None => Seq::<ImageView>::empty(),
                                        },
                                ),
                        ),
                )
            }),
{
    law_discovery_finds_every_image(registry, url, projects);
    let start = DiscoveryView::start(url, projects);
    let n = choose|n: nat|
        ({
            let end = #[trigger] registry.answers(start, n);
            &&& end.phase is Done
            &&& end.images == registry.images_of_projects(projects, projects.len())
        });
    let base = DiscoveryView {
        url,
        projects,
        project: 0,
        phase: PhaseView::Done,
        images: Seq::empty(),
    };
    lemma_project_on_track(registry, url, projects, base, 0);
    lemma_replies_are_answers(server, registry, url, projects, start, n);
    let of_project = |project: ProjectView|
        (registry.repositories)(project.source).flat_map(
            |name: Seq<char>|
                (registry.artifacts)(project.source, within_project(name)).flat_map(
                    |artifact: ArtifactView|
                        match artifact {
                            Some(tags) => tags.map_values(
                                |tag: Seq<char>|
                                    ImageView { project, repository: within_project(name), tag },
                            ),
                            None => Seq::<ImageView>::empty(),
                        },
                ),
        );
    assert forall|project: ProjectView| #[trigger]
        of_project(project) == registry.images_of_project(project) by {
        let names = (registry.repositories)(project.source);
        let of_name = |name: Seq<char>|
            (registry.artifacts)(project.source, within_project(name)).flat_map(
                |artifact: ArtifactView|
                    match artifact {
                        Some(tags) => tags.map_values(
                            |tag: Seq<char>|
                                ImageView { project, repository: within_project(name), tag },
                        ),
                        None => Seq::<ImageView>::empty(),
                    },
            );
        assert forall|name: Seq<char>| #[trigger]
            of_name(name) == images_of_artifacts(
                project,
                within_project(name),
                (registry.artifacts)(project.source, within_project(name)),
            ) by {
            let of_artifact = |artifact: ArtifactView|
                match artifact {
                    Some(tags) => tags.map_values(
                        |tag: Seq<char>|
                            ImageView { project, repository: within_project(name), tag },
                    ),
                    None => Seq::<ImageView>::empty(),
                };
            assert forall|a: ArtifactView| #[trigger]
                of_artifact(a) == images_of_artifact(project, within_project(name), a) by {
                assert(of_artifact(a) =~= images_of_artifact(project, within_project(name), a));
            }
            lemma_artifacts_gathered(
                project,
                within_project(name),
                (registry.artifacts)(project.source, within_project(name)),
                of_artifact,
            );
        }
        lemma_repositories_gathered(registry, project, names, names.len(), of_name);
        assert(names.take(names.len() as int) =~= names);
    }
    lemma_projects_gathered(registry, projects, projects.len(), of_project);
    assert(projects.take(projects.len() as int) =~= projects);
    let end = server.replies(start, n);
    assert(end.images == projects.flat_map(of_project));
}

} // verus!
