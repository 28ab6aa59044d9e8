//! What a migration is told: the two registries and the projects to move.

use vstd::prelude::*;

use crate::text;

verus! {

/// A registry as contracts speak of it.
pub struct HarborConfigView {
    pub url: Seq<char>,
    pub username: Seq<char>,
    pub password: Seq<char>,
}

impl HarborConfigView {
    /// The registry that is given by a URL, a user name and a password.
    pub open spec fn given(
        url: Seq<char>,
        username: Seq<char>,
        password: Seq<char>,
    ) -> HarborConfigView {
        HarborConfigView { url: text::trim_end_char(url, '/'), username, password }
    }
}

/// A project mapping as contracts speak of it.
pub struct ProjectView {
    pub source: Seq<char>,
    pub destination: Seq<char>,
}

/// Where a registry is and who signs in to it.
#[derive(Debug)]
pub struct HarborConfig {
    pub url: String,
    pub username: String,
    pub password: String,
}

impl View for HarborConfig {
    type V = HarborConfigView;

    open spec fn view(&self) -> HarborConfigView {
        HarborConfigView { url: self.url@, username: self.username@, password: self.password@ }
    }
}

impl Clone for HarborConfig {
    fn clone(&self) -> (r: Self)
        ensures
            r@ == self@,
    {
        HarborConfig {
            url: self.url.clone(),
            username: self.username.clone(),
            password: self.password.clone(),
        }
    }
}

impl HarborConfig {
    /// A registry at `url`, which is taken without the slashes at its end.
    pub fn new(url: String, username: String, password: String) -> (r: HarborConfig)
        ensures
            r@ == (HarborConfigView {
                url: text::trim_end_char(url@, '/'),
                username: username@,
                password: password@,
            }),
            r@ == HarborConfigView::given(url@, username@, password@),
    {
        HarborConfig { url: text::trim_end(url.as_str(), '/'), username, password }
    }
}

/// A project of the source registry and the project it becomes.
#[derive(Debug)]
pub struct ProjectConfig {
    pub source: String,
    pub destination: String,
}

impl View for ProjectConfig {
    type V = ProjectView;

    open spec fn view(&self) -> ProjectView {
        ProjectView { source: self.source@, destination: self.destination@ }
    }
}

impl Clone for ProjectConfig {
    fn clone(&self) -> (r: Self)
        ensures
            r@ == self@,
    {
        ProjectConfig { source: self.source.clone(), destination: self.destination.clone() }
    }
}

/// The projects of a list, as contracts speak of them.
pub open spec fn project_views(projects: Seq<ProjectConfig>) -> Seq<ProjectView> {
    projects.map_values(|p: ProjectConfig| p@)
}

/// A whole migration: from where, to where, and which projects.
#[derive(Debug)]
pub struct Config {
    pub source: HarborConfig,
    pub destination: HarborConfig,
    pub projects: Vec<ProjectConfig>,
}

/// Of the slashes at the end of a URL none is kept, and nothing else is lost:
/// the URL is the trimmed one followed by slashes.
pub proof fn law_trimmed_url(url: Seq<char>)
    ensures
        ({
            let trimmed = text::trim_end_char(url, '/');
            &&& trimmed.len() <= url.len()
            &&& url.take(trimmed.len() as int) == trimmed
            &&& forall|i: int| trimmed.len() <= i < url.len() ==> url[i] == '/'
            &&& trimmed.len() > 0 ==> trimmed.last() != '/'
        }),
{
    text::law_trim_drops_the_end(url, '/');
}

/// Trimming a trimmed URL changes nothing.
pub proof fn law_trim_is_idempotent(url: Seq<char>)
    ensures
        text::trim_end_char(text::trim_end_char(url, '/'), '/') == text::trim_end_char(url, '/'),
{
    law_trimmed_url(url);
}

/// A registry is seen as it is configured, and so is a project mapping.
pub proof fn law_configuration_is_seen_as_it_is(config: HarborConfig, project: ProjectConfig)
    ensures
        config@.url == config.url@,
        config@.username == config.username@,
        config@.password == config.password@,
        project@.source == project.source@,
        project@.destination == project.destination@,
{
}

/// Projects are seen one by one, in their order.
pub proof fn law_each_project_is_seen(projects: Seq<ProjectConfig>)
    ensures
        project_views(projects).len() == projects.len(),
        forall|i: int|
            0 <= i < projects.len() ==> (#[trigger] project_views(projects)[i]).source
                == projects[i].source@ && project_views(projects)[i].destination
                == projects[i].destination@,
{
}

/// Of a URL that a registry is given, all is kept but the slashes at its end.
/// The user name and the password are kept as they are.
pub proof fn law_registry_keeps_what_it_is_given(
    url: Seq<char>,
    slashes: nat,
    username: Seq<char>,
    password: Seq<char>,
)
    requires
        url.len() > 0 ==> url.last() != '/',
    ensures
        ({
            let given = url + Seq::new(slashes, |i: int| '/');
            let registry = HarborConfigView::given(given, username, password);
            &&& registry.url == url
            &&& registry.username == username
            &&& registry.password == password
        }),
{
    let given = url + Seq::new(slashes, |i: int| '/');
    let trimmed = text::trim_end_char(given, '/');
    law_trimmed_url(given);
    if trimmed.len() < url.len() {
        assert(given[url.len() - 1] == '/');
    } else if trimmed.len() > url.len() {
        assert(trimmed.last() == given.take(trimmed.len() as int)[trimmed.len() - 1]);
    }
    assert(given.take(url.len() as int) =~= url);
}

} // verus!
