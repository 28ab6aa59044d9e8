//! The listings of a registry, which come in pages: the repositories of a
//! project and the artifacts of a repository.
//!
//! A listing says which URL to ask for next. It takes the page that came back
//! and is complete with the first page that is not full.

use vstd::prelude::*;

use crate::image::{lemma_cut_at_first, lemma_same_prefix};
use crate::text;

verus! {

/// How many entries a full page has.
pub const PAGE_SIZE: usize = 100;

/// A repository, as the registry lists it.
#[derive(Debug)]
pub struct Repository {
    pub name: String,
}

impl View for Repository {
    type V = Seq<char>;

    open spec fn view(&self) -> Seq<char> {
        self.name@
    }
}

/// A tag of an artifact.
#[derive(Debug)]
pub struct Tag {
    pub name: String,
}

impl View for Tag {
    type V = Seq<char>;

    open spec fn view(&self) -> Seq<char> {
        self.name@
    }
}

/// An artifact with its tags, if it has any.
#[derive(Debug)]
pub struct Artifact {
    pub tags: Option<Vec<Tag>>,
}

/// An artifact as contracts speak of it: the names of its tags.
pub type ArtifactView = Option<Seq<Seq<char>>>;

impl View for Artifact {
    type V = ArtifactView;

    open spec fn view(&self) -> ArtifactView {
        match self.tags {
            Some(tags) => Some(tag_names(tags@)),
            None => None,
        }
    }
}

/// The names of tags.
pub open spec fn tag_names(tags: Seq<Tag>) -> Seq<Seq<char>> {
    tags.map_values(|t: Tag| t@)
}

/// The names of repositories.
pub open spec fn repository_names(repositories: Seq<Repository>) -> Seq<Seq<char>> {
    repositories.map_values(|r: Repository| r@)
}

/// Artifacts as contracts speak of them.
pub open spec fn artifact_views(artifacts: Seq<Artifact>) -> Seq<ArtifactView> {
    artifacts.map_values(|a: Artifact| a@)
}

/// A repository's name within its project: what follows the first slash, or
/// the whole name where there is no slash.
pub open spec fn within_project(name: Seq<char>) -> Seq<char> {
    match text::after_first(name, '/') {
        Some(rest) => rest,
        None => name,
    }
}

/// The names of repositories within their project.
pub open spec fn all_within_project(names: Seq<Seq<char>>) -> Seq<Seq<char>> {
    names.map_values(|name: Seq<char>| within_project(name))
}

/// A repository's name as one segment of a URL's path. The slash is encoded
/// twice: `%2F`, and then its percent sign.
pub open spec fn encoded_repository(name: Seq<char>) -> Seq<char> {
    text::replace_all(name, "/"@, "%252F"@)
}

/// Where a page of the repositories of a project is.
pub open spec fn repositories_url(url: Seq<char>, project: Seq<char>, page: nat) -> Seq<char> {
    url + "/api/v2.0/projects/"@ + project + "/repositories?page="@ + text::decimal(page)
        + "&page_size="@ + text::decimal(PAGE_SIZE as nat)
}

/// Where a page of the artifacts of a repository is.
pub open spec fn artifacts_url(
    url: Seq<char>,
    project: Seq<char>,
    repository: Seq<char>,
    page: nat,
) -> Seq<char> {
    url + "/api/v2.0/projects/"@ + project + "/repositories/"@ + encoded_repository(repository)
        + "/artifacts?page="@ + text::decimal(page) + "&page_size="@ + text::decimal(
        PAGE_SIZE as nat,
    ) + "&with_tag=true"@
}

/// Whether an HTTP status is one of success.
pub open spec fn is_success(status: u16) -> bool {
    200 <= status < 300
}

/// The text of an HTTP status: its number and its standard reason.
pub uninterp spec fn status_line(status: u16) -> Seq<char>;

/// The text of an HTTP status, as `reqwest::StatusCode` displays it. Numbers
/// from 100 to 999 are the ones that it takes. The number and the reason that
/// goes with it come from a table of that crate, which is not spelled out.
#[verifier::external_body]
fn status_text(status: u16) -> (r: String)
    requires
        100 <= status <= 999,
    ensures
        r@ == status_line(status),
{
    format!("{}", reqwest::StatusCode::from_u16(status).unwrap())
}

/// What is said when a registry refuses to list something.
pub open spec fn refusal_text(what: Seq<char>, status_text: Seq<char>) -> Seq<char> {
    "Failed to list "@ + what + ": "@ + status_text
}

/// What is said when a registry refuses to list something.
pub fn refusal(what: &str, status_text: &str) -> (r: String)
    ensures
        r@ == refusal_text(what@, status_text@),
        r@ == "Failed to list "@ + what@ + ": "@ + status_text@,
{
    let mut r = text::owned("Failed to list ");
    r.append(what);
    r.append(": ");
    r.append(status_text);
    r
}

/// Takes a status of success, and says what is wrong with any other.
fn check(what: &str, status: u16) -> (r: Result<(), String>)
    requires
        100 <= status <= 999,
    ensures
        match r {
            Ok(_) => is_success(status),
            Err(error) => !is_success(status) && error@ == "Failed to list "@ + what@ + ": "@
                + status_line(status),
        },
{
    if 200 <= status && status < 300 {
        Ok(())
    } else {
        Err(refusal(what, status_text(status).as_str()))
    }
}

/// A repository's name within its project.
pub fn strip_project(repository: Repository) -> (r: Repository)
    ensures
        r@ == within_project(repository@),
{
    match text::split_after(repository.name.as_str(), '/') {
        Some(name) => Repository { name },
        None => repository,
    }
}

/// A repository's name as one segment of a URL's path.
pub fn encode_repository(name: &str) -> (r: String)
    ensures
        r@ == encoded_repository(name@),
{
    proof {
        reveal_strlit("/");
    }
    text::replace(name, "/", "%252F")
}

/// A listing of repositories as contracts speak of it.
#[verifier::ext_equal]
pub struct RepositoryListingView {
    pub url: Seq<char>,
    pub project: Seq<char>,
    pub page: nat,
    pub found: Seq<Seq<char>>,
}

impl RepositoryListingView {
    /// A listing of which no page has come yet.
    pub open spec fn start(url: Seq<char>, project: Seq<char>) -> RepositoryListingView {
        RepositoryListingView { url, project, page: 1, found: Seq::empty() }
    }

    /// The listing once its next page has come.
    pub open spec fn received(self, names: Seq<Seq<char>>) -> RepositoryListingView {
        RepositoryListingView {
            page: self.page + 1,
            found: self.found + all_within_project(names),
            ..self
        }
    }
}

/// The listing of the repositories of a project.
pub struct RepositoryListing {
    url: String,
    project: String,
    page: usize,
    found: Vec<Repository>,
}

impl View for RepositoryListing {
    type V = RepositoryListingView;

    closed spec fn view(&self) -> RepositoryListingView {
        RepositoryListingView {
            url: self.url@,
            project: self.project@,
            page: self.page as nat,
            found: repository_names(self.found@),
        }
    }
}

/// What a listing of repositories comes to with one page more.
pub enum RepositoryStep {
    /// The page was full: there may be more.
    More(RepositoryListing),
    /// The page was the last.
    Complete(Vec<Repository>),
}

impl RepositoryListing {
    /// Every page before the current one was full.
    pub open spec fn wf(self) -> bool {
        self@.page >= 1 && (self@.page - 1) * PAGE_SIZE <= self@.found.len()
    }

    /// The listing of the repositories of `project` in the registry at `url`.
    pub fn new(url: &str, project: &str) -> (r: RepositoryListing)
        ensures
            r.wf(),
            r@ == RepositoryListingView::start(url@, project@),
    {
        let r = RepositoryListing {
            url: text::owned(url),
            project: text::owned(project),
            page: 1,
            found: Vec::new(),
        };
        assert(r@ =~= RepositoryListingView::start(url@, project@));
        r
    }

    /// Where the next page is.
    pub fn request(&self) -> (r: String)
        ensures
            r@ == repositories_url(self@.url, self@.project, self@.page),
    {
        let mut r = self.url.clone();
        r.append("/api/v2.0/projects/");
        r.append(self.project.as_str());
        r.append("/repositories?page=");
        r.append(text::decimal_text(self.page).as_str());
        r.append("&page_size=");
        r.append(text::decimal_text(PAGE_SIZE).as_str());
        r
    }

    /// Takes the status of an answer, or says what is wrong with it.
    pub fn check_status(status: u16) -> (r: Result<(), String>)
        requires
            100 <= status <= 999,
        ensures
            match r {
                Ok(_) => is_success(status),
                Err(error) => !is_success(status) && error@ == "Failed to list "@
                    + "repositories"@ + ": "@ + status_line(status),
            },
            r matches Err(error) ==> error@ == refusal_text("repositories"@, status_line(status)),
    {
        check("repositories", status)
    }

    /// Takes the next page.
    pub fn receive(self, page: Vec<Repository>) -> (r: RepositoryStep)
        requires
            self.wf(),
        ensures
            match r {
                RepositoryStep::More(listing) => {
                    &&& page@.len() >= PAGE_SIZE
                    &&& listing.wf()
                    &&& listing@ == self@.received(repository_names(page@))
                },
                RepositoryStep::Complete(repositories) => {
                    &&& page@.len() < PAGE_SIZE
                    &&& repository_names(repositories@) == self@.received(
                        repository_names(page@),
                    ).found
                },
            },
    {
        let ghost names = all_within_project(repository_names(page@));
        let ghost before = self@;
        let is_last_page = page.len() < PAGE_SIZE;
        let mut listing = self;
        for i in 0..page.len()
            invariant
                names == all_within_project(repository_names(page@)),
                listing@ == (RepositoryListingView {
                    found: before.found + names.take(i as int),
                    ..before
                }),
        {
            let ghost found = listing@.found;
            let name = Repository { name: page[i].name.clone() };
            let stripped = strip_project(name);
            listing.found.push(stripped);
            assert(stripped@ == names[i as int]);
            assert(listing@.found =~= found.push(names[i as int]));
            assert(names.take(i + 1) =~= names.take(i as int).push(names[i as int]));
            assert(listing@.found =~= before.found + names.take(i + 1));
        }
        assert(names.take(names.len() as int) =~= names);
        if is_last_page {
            RepositoryStep::Complete(listing.found)
        } else {
            let count: usize = listing.found.len();
            assert(count == listing@.found.len());
            listing.page = listing.page + 1;
            RepositoryStep::More(listing)
        }
    }
}

/// A listing of artifacts as contracts speak of it.
#[verifier::ext_equal]
pub struct ArtifactListingView {
    pub url: Seq<char>,
    pub project: Seq<char>,
    pub repository: Seq<char>,
    pub page: nat,
    pub found: Seq<ArtifactView>,
}

impl ArtifactListingView {
    /// A listing of which no page has come yet.
    pub open spec fn start(
        url: Seq<char>,
        project: Seq<char>,
        repository: Seq<char>,
    ) -> ArtifactListingView {
        ArtifactListingView { url, project, repository, page: 1, found: Seq::empty() }
    }

    /// The listing once its next page has come.
    pub open spec fn received(self, artifacts: Seq<ArtifactView>) -> ArtifactListingView {
        ArtifactListingView { page: self.page + 1, found: self.found + artifacts, ..self }
    }
}

/// The listing of the artifacts of a repository.
pub struct ArtifactListing {
    url: String,
    project: String,
    repository: String,
    page: usize,
    found: Vec<Artifact>,
}

impl View for ArtifactListing {
    type V = ArtifactListingView;

    closed spec fn view(&self) -> ArtifactListingView {
        ArtifactListingView {
            url: self.url@,
            project: self.project@,
            repository: self.repository@,
            page: self.page as nat,
            found: artifact_views(self.found@),
        }
    }
}

/// What a listing of artifacts comes to with one page more.
pub enum ArtifactStep {
    /// The page was full: there may be more.
    More(ArtifactListing),
    /// The page was the last.
    Complete(Vec<Artifact>),
}

impl ArtifactListing {
    /// Every page before the current one was full.
    pub open spec fn wf(self) -> bool {
        self@.page >= 1 && (self@.page - 1) * PAGE_SIZE <= self@.found.len()
    }

    /// The listing of the artifacts of a repository of `project` in the
    /// registry at `url`; the repository goes by its name within the project.
    pub fn new(url: &str, project: &str, repository: &str) -> (r: ArtifactListing)
        ensures
            r.wf(),
            r@ == ArtifactListingView::start(url@, project@, repository@),
    {
        let r = ArtifactListing {
            url: text::owned(url),
            project: text::owned(project),
            repository: text::owned(repository),
            page: 1,
            found: Vec::new(),
        };
        assert(r@ =~= ArtifactListingView::start(url@, project@, repository@));
        r
    }

    /// Where the next page is.
    pub fn request(&self) -> (r: String)
        ensures
            r@ == artifacts_url(self@.url, self@.project, self@.repository, self@.page),
    {
        let mut r = self.url.clone();
        r.append("/api/v2.0/projects/");
        r.append(self.project.as_str());
        r.append("/repositories/");
        r.append(encode_repository(self.repository.as_str()).as_str());
        r.append("/artifacts?page=");
        r.append(text::decimal_text(self.page).as_str());
        r.append("&page_size=");
        r.append(text::decimal_text(PAGE_SIZE).as_str());
        r.append("&with_tag=true");
        r
    }

    /// Takes the status of an answer, or says what is wrong with it.
    pub fn check_status(status: u16) -> (r: Result<(), String>)
        requires
            100 <= status <= 999,
        ensures
            match r {
                Ok(_) => is_success(status),
                Err(error) => !is_success(status) && error@ == "Failed to list "@
                    + "artifacts"@ + ": "@ + status_line(status),
            },
            r matches Err(error) ==> error@ == refusal_text("artifacts"@, status_line(status)),
    {
        check("artifacts", status)
    }

    /// Takes the next page.
    pub fn receive(self, page: Vec<Artifact>) -> (r: ArtifactStep)
        requires
            self.wf(),
        ensures
            match r {
                ArtifactStep::More(listing) => {
                    &&& page@.len() >= PAGE_SIZE
                    &&& listing.wf()
                    &&& listing@ == self@.received(artifact_views(page@))
                },
                ArtifactStep::Complete(artifacts) => {
                    &&& page@.len() < PAGE_SIZE
                    &&& artifact_views(artifacts@) == self@.received(artifact_views(page@)).found
                },
            },
    {
        let ghost before = self@;
        let ghost artifacts = artifact_views(page@);
        let is_last_page = page.len() < PAGE_SIZE;
        let mut page = page;
        let mut listing = self;
        listing.found.append(&mut page);
        assert(listing@.found =~= before.found + artifacts);
        if is_last_page {
            ArtifactStep::Complete(listing.found)
        } else {
            let count: usize = listing.found.len();
            assert(count == listing@.found.len());
            listing.page = listing.page + 1;
            ArtifactStep::More(listing)
        }
    }
}

/// A repository that the registry lists as `project/name` goes by `name`
/// within its project. The project's own name has no slash in it.
pub proof fn law_project_is_stripped(project: Seq<char>, name: Seq<char>)
    requires
        !project.contains('/'),
    ensures
        within_project(project + "/"@ + name) == name,
    decreases project.len(),
{
    reveal_strlit("/");
    let full = project + "/"@ + name;
    if project.len() == 0 {
        assert(full.skip(1) =~= name);
    } else {
        assert(project[0] != '/') by {
            assert(project.contains(project[0]));
        }
        let rest = project.skip(1);
        assert(!rest.contains('/')) by {
            if rest.contains('/') {
                let i = choose|i: int| 0 <= i < rest.len() && rest[i] == '/';
                assert(project[i + 1] == '/');
            }
        }
        law_project_is_stripped(rest, name);
        lemma_slash_is_found(rest, name);
        assert(full.skip(1) =~= rest + "/"@ + name);
    }
}

/// There is a slash in `a/b`.
proof fn lemma_slash_is_found(a: Seq<char>, b: Seq<char>)
    ensures
        text::after_first(a + "/"@ + b, '/') is Some,
    decreases a.len(),
{
    reveal_strlit("/");
    if a.len() > 0 {
        lemma_slash_is_found(a.skip(1), b);
        assert((a + "/"@ + b).skip(1) =~= a.skip(1) + "/"@ + b);
    }
}

/// A name without a slash stays as it is.
pub proof fn law_plain_name_is_kept(name: Seq<char>)
    requires
        !name.contains('/'),
    ensures
        within_project(name) == name,
{
    lemma_no_slash_is_found(name);
}

/// There is no slash to be found where there is none.
proof fn lemma_no_slash_is_found(name: Seq<char>)
    requires
        !name.contains('/'),
    ensures
        text::after_first(name, '/') is None,
    decreases name.len(),
{
    if name.len() > 0 {
        assert(name.contains(name[0]));
        let rest = name.skip(1);
        assert(!rest.contains('/')) by {
            if rest.contains('/') {
                let i = choose|i: int| 0 <= i < rest.len() && rest[i] == '/';
                assert(name[i + 1] == '/');
            }
        }
        lemma_no_slash_is_found(rest);
    }
}

/// The name of a repository takes up one segment of the path, however many
/// slashes there are in it: none is left.
pub proof fn law_encoded_name_is_one_segment(name: Seq<char>)
    ensures
        !encoded_repository(name).contains('/'),
    decreases name.len(),
{
    reveal_strlit("/");
    reveal_strlit("%252F");
    assert("/"@ =~= seq!['/']);
    if name.len() > 0 {
        text::lemma_occurs_char(name, '/', 0);
        law_encoded_name_is_one_segment(name.skip(1));
        let rest = encoded_repository(name.skip(1));
        let whole = encoded_repository(name);
        if whole.contains('/') {
            let i = choose|i: int| 0 <= i < whole.len() && whole[i] == '/';
            if name[0] == '/' {
                assert(whole == "%252F"@ + rest);
                if i >= 5 {
                    assert(rest[i - 5] == '/');
                }
            } else {
                assert(whole == seq![name[0]] + rest);
                if i >= 1 {
                    assert(rest[i - 1] == '/');
                }
            }
        }
    }
}

/// The encoding is percent-encoding the slashes, and then the percent signs of
/// that. A name that has percent signs of its own is the exception: those are
/// not encoded.
pub proof fn law_encoding_is_double(name: Seq<char>)
    requires
        !name.contains('%'),
    ensures
        encoded_repository(name) == text::replace_all(
            text::replace_all(name, "/"@, "%2F"@),
            "%"@,
            "%25"@,
        ),
    decreases name.len(),
{
    reveal_strlit("/");
    reveal_strlit("%");
    reveal_strlit("%2F");
    reveal_strlit("%25");
    reveal_strlit("%252F");
    assert("/"@ =~= seq!['/']);
    assert("%"@ =~= seq!['%']);
    if name.len() > 0 {
        let rest = name.skip(1);
        assert(name[0] != '%') by {
            assert(name.contains(name[0]));
        }
        assert(!rest.contains('%')) by {
            if rest.contains('%') {
                let i = choose|i: int| 0 <= i < rest.len() && rest[i] == '%';
                assert(name[i + 1] == '%');
            }
        }
        law_encoding_is_double(rest);
        text::lemma_occurs_char(name, '/', 0);
        let once = text::replace_all(rest, "/"@, "%2F"@);
        if name[0] == '/' {
            text::lemma_replace_char_concat("%2F"@, once, '%', "%25"@);
            assert(text::replace_all("%2F"@, "%"@, "%25"@) =~= "%252F"@) by {
                text::lemma_occurs_char("%2F"@, '%', 0);
                let tail = "%2F"@.skip(1);
                assert(tail =~= seq!['2', 'F']);
                assert forall|i: int| 0 <= i < tail.len() implies !text::occurs_at(
                    tail,
                    "%"@,
                    i,
                ) by {
                    text::lemma_occurs_char(tail, '%', i);
                }
                text::lemma_replace_nothing(tail, "%"@, "%25"@);
                assert(text::replace_all("%2F"@, "%"@, "%25"@) == "%25"@ + tail);
            }
        } else {
            let first = seq![name[0]];
            text::lemma_replace_char_concat(first, once, '%', "%25"@);
            text::lemma_occurs_char(first, '%', 0);
            assert forall|i: int| 0 <= i < first.len() implies !text::occurs_at(
                first,
                "%"@,
                i,
            ) by {}
            text::lemma_replace_nothing(first, "%"@, "%25"@);
        }
    }
}

/// Where an encoded name begins without a percent sign, it begins as the name
/// does.
proof fn lemma_encoding_keeps_start(name: Seq<char>, n: nat)
    requires
        n <= encoded_repository(name).len(),
        !encoded_repository(name).take(n as int).contains('%'),
    ensures
        n <= name.len(),
        name.take(n as int) == encoded_repository(name).take(n as int),
    decreases n,
{
    reveal_strlit("/");
    reveal_strlit("%252F");
    assert("/"@ =~= seq!['/']);
    let encoded = encoded_repository(name);
    if n > 0 && name.len() > 0 {
        let rest = encoded_repository(name.skip(1));
        text::lemma_occurs_char(name, '/', 0);
        assert(encoded.take(n as int)[0] == encoded[0]);
        assert(name[0] != '/');
        assert(encoded == seq![name[0]] + rest);
        assert forall|i: int| 0 <= i < n - 1 implies (#[trigger] rest.take(n - 1)[i]) != '%' by {
            assert(encoded.take(n as int)[i + 1] == rest[i]);
        }
        lemma_encoding_keeps_start(name.skip(1), (n - 1) as nat);
        assert(name.take(n as int) =~= seq![name[0]] + name.skip(1).take(n - 1));
        assert(encoded.take(n as int) =~= seq![name[0]] + rest.take(n - 1));
    } else {
        assert(name.take(n as int) =~= encoded.take(n as int));
    }
}

/// The name can be had back from its encoding, and so no two names have the
/// same one. A name that holds an encoded slash of its own is the exception.
pub proof fn law_encoding_can_be_turned_back(name: Seq<char>)
    requires
        forall|i: int| 0 <= i < name.len() ==> !text::occurs_at(name, "%252F"@, i),
    ensures
        text::replace_all(encoded_repository(name), "%252F"@, "/"@) == name,
    decreases name.len(),
{
    reveal_strlit("/");
    reveal_strlit("%252F");
    assert("/"@ =~= seq!['/']);
    let code = "%252F"@;
    let encoded = encoded_repository(name);
    if name.len() > 0 {
        let tail = name.skip(1);
        let rest = encoded_repository(tail);
        text::lemma_occurs_char(name, '/', 0);
        assert forall|i: int| 0 <= i < tail.len() implies !text::occurs_at(tail, code, i) by {
            if text::occurs_at(tail, code, i) {
                assert(name.subrange(i + 1, i + 1 + 5) =~= tail.subrange(i, i + 5));
                assert(text::occurs_at(name, code, i + 1));
            }
        }
        law_encoding_can_be_turned_back(tail);
        if name[0] == '/' {
            assert(encoded == code + rest);
            assert(encoded.subrange(0, 5) =~= code);
            assert(encoded.skip(5) =~= rest);
        } else {
            assert(encoded == seq![name[0]] + rest);
            assert(encoded.skip(1) =~= rest);
            if text::occurs_at(encoded, code, 0) {
                let start = rest.take(4);
                assert forall|i: int| 0 <= i < 4 implies (#[trigger] start[i]) == code[i + 1] by {
                    assert(encoded.subrange(0, 5)[i + 1] == rest[i]);
                }
                assert(encoded.subrange(0, 5)[0] == name[0]);
                lemma_encoding_keeps_start(tail, 4);
                assert forall|i: int| 0 <= i < 4 implies (#[trigger] tail[i]) == code[i + 1] by {
                    assert(tail.take(4)[i] == start[i]);
                }
                assert forall|i: int| 0 <= i < 5 implies name.subrange(0, 5)[i] == code[i] by {
                    if i > 0 {
                        assert(name[i] == tail[i - 1]);
                    }
                }
                assert(name.subrange(0, 5) =~= code);
                assert(text::occurs_at(name, code, 0));
                assert(false);
            }
        }
        assert(seq![name[0]] + tail =~= name);
    }
}

/// Repositories, tags and artifacts are seen as they are.
pub proof fn law_entries_are_seen_as_they_are(
    repository: Repository,
    tag: Tag,
    artifact: Artifact,
)
    ensures
        repository@ == repository.name@,
        tag@ == tag.name@,
        artifact.tags is None <==> artifact@ is None,
        artifact.tags matches Some(tags) ==> {
            &&& artifact@->0.len() == tags@.len()
            &&& forall|i: int|
                0 <= i < tags@.len() ==> #[trigger] artifact@->0[i] == tags@[i].name@
        },
{
}

/// Lists of them are seen one by one, in their order.
pub proof fn law_each_entry_is_seen(
    repositories: Seq<Repository>,
    tags: Seq<Tag>,
    artifacts: Seq<Artifact>,
)
    ensures
        repository_names(repositories).len() == repositories.len(),
        forall|i: int|
            0 <= i < repositories.len() ==> #[trigger] repository_names(repositories)[i]
                == repositories[i].name@,
        tag_names(tags).len() == tags.len(),
        forall|i: int| 0 <= i < tags.len() ==> #[trigger] tag_names(tags)[i] == tags[i].name@,
        artifact_views(artifacts).len() == artifacts.len(),
        forall|i: int|
            0 <= i < artifacts.len() ==> #[trigger] artifact_views(artifacts)[i] == artifacts[i]@,
{
}

/// The project is stripped from each name of a list, and none is left out.
pub proof fn law_each_name_is_stripped(names: Seq<Seq<char>>)
    ensures
        all_within_project(names).len() == names.len(),
        forall|i: int|
            0 <= i < names.len() ==> #[trigger] all_within_project(names)[i] == within_project(
                names[i],
            ),
{
}

/// Names are encoded piece by piece: a slash becomes `%252F`, and any other
/// character stays.
pub proof fn law_encoding_goes_piece_by_piece(a: Seq<char>, b: Seq<char>, c: char)
    ensures
        encoded_repository(a + b) == encoded_repository(a) + encoded_repository(b),
        encoded_repository(Seq::empty()) == Seq::<char>::empty(),
        encoded_repository(seq![c]) == if c == '/' {
            "%252F"@
        } else {
            seq![c]
        },
{
    reveal_strlit("/");
    assert("/"@ =~= seq!['/']);
    text::lemma_replace_char_concat(a, b, '/', "%252F"@);
    text::lemma_occurs_char(seq![c], '/', 0);
    assert(seq![c].skip(1) =~= Seq::empty());
    let rest = encoded_repository(Seq::empty());
    assert(rest =~= Seq::empty());
    assert("%252F"@ + rest =~= "%252F"@);
    assert(seq![c] + rest =~= seq![c]);
}

/// The decimal text of a hundred.
proof fn lemma_page_size_text()
    ensures
        text::decimal(PAGE_SIZE as nat) == "100"@,
{
    reveal_strlit("100");
    text::law_digit_at_the_end(1, 0, '0');
    text::law_digit_at_the_end(10, 0, '0');
    assert(text::decimal(1) =~= seq!['1']);
    assert(text::decimal(100) =~= "100"@);
}

/// A request for repositories begins with the URL of the registry and the path
/// of the projects, goes on with the whole name of the project, and ends with
/// the page that is wanted, a hundred entries to a page.
pub proof fn law_request_for_repositories(url: Seq<char>, project: Seq<char>, page: nat)
    ensures
        ({
            let request = repositories_url(url, project, page);
            let start = (url.len() + 19) as int;
            let end = start + project.len();
            &&& request.take(url.len() as int) == url
            &&& request.subrange(url.len() as int, start) == "/api/v2.0/projects/"@
            &&& request.subrange(start, end) == project
            &&& request.skip(end) == "/repositories?page="@ + text::decimal(page)
                + "&page_size=100"@
        }),
{
    reveal_strlit("/api/v2.0/projects/");
    reveal_strlit("&page_size=");
    reveal_strlit("100");
    reveal_strlit("&page_size=100");
    lemma_page_size_text();
    assert("&page_size="@ + "100"@ =~= "&page_size=100"@);
    let request = repositories_url(url, project, page);
    let start = (url.len() + 19) as int;
    let end = start + project.len();
    assert(request =~= url + "/api/v2.0/projects/"@ + project + ("/repositories?page="@
        + text::decimal(page) + "&page_size=100"@));
    assert(request.take(url.len() as int) =~= url);
    assert(request.subrange(url.len() as int, start) =~= "/api/v2.0/projects/"@);
    assert(request.subrange(start, end) =~= project);
    assert(request.skip(end) =~= "/repositories?page="@ + text::decimal(page)
        + "&page_size=100"@);
}

/// A request for artifacts goes on with the whole name of the project and the
/// whole name of the repository, the latter as one segment of the path, and
/// ends with the page that is wanted, a hundred entries to a page and the tags
/// with them.
pub proof fn law_request_for_artifacts(
    url: Seq<char>,
    project: Seq<char>,
    repository: Seq<char>,
    page: nat,
)
    ensures
        ({
            let request = artifacts_url(url, project, repository, page);
            let segment = encoded_repository(repository);
            let start = (url.len() + 19) as int;
            let end = start + project.len();
            let segment_end = end + 14 + segment.len();
            &&& request.take(url.len() as int) == url
            &&& request.subrange(url.len() as int, start) == "/api/v2.0/projects/"@
            &&& request.subrange(start, end) == project
            &&& request.subrange(end, end + 14) == "/repositories/"@
            &&& request.subrange(end + 14, segment_end) == segment
            &&& request.skip(segment_end) == "/artifacts?page="@ + text::decimal(page)
                + "&page_size=100&with_tag=true"@
        }),
{
    reveal_strlit("/api/v2.0/projects/");
    reveal_strlit("/repositories/");
    reveal_strlit("&page_size=");
    reveal_strlit("100");
    reveal_strlit("&with_tag=true");
    reveal_strlit("&page_size=100&with_tag=true");
    lemma_page_size_text();
    assert("&page_size="@ + "100"@ + "&with_tag=true"@ =~= "&page_size=100&with_tag=true"@);
    let request = artifacts_url(url, project, repository, page);
    let segment = encoded_repository(repository);
    let start = (url.len() + 19) as int;
    let end = start + project.len();
    let segment_end = end + 14 + segment.len();
    let tail = "/artifacts?page="@ + text::decimal(page) + "&page_size=100&with_tag=true"@;
    assert(request =~= url + "/api/v2.0/projects/"@ + project + "/repositories/"@ + segment + tail);
    assert(request.take(url.len() as int) =~= url);
    assert(request.subrange(url.len() as int, start) =~= "/api/v2.0/projects/"@);
    assert(request.subrange(start, end) =~= project);
    assert(request.subrange(end, end + 14) =~= "/repositories/"@);
    assert(request.subrange(end + 14, segment_end) =~= segment);
    assert(request.skip(segment_end) =~= tail);
}

/// From a request for repositories it can be told which project and which page
/// is wanted, projects having no slash in their names.
pub proof fn law_requests_for_repositories_differ(
    url: Seq<char>,
    project: Seq<char>,
    page: nat,
    other: Seq<char>,
    other_page: nat,
)
    requires
        !project.contains('/'),
        !other.contains('/'),
        repositories_url(url, project, page) == repositories_url(url, other, other_page),
    ensures
        project == other,
        page == other_page,
{
    reveal_strlit("/repositories?page=");
    reveal_strlit("repositories?page=");
    let head = url + "/api/v2.0/projects/"@;
    let tail = "&page_size="@ + text::decimal(PAGE_SIZE as nat);
    let word = "repositories?page="@;
    assert("/repositories?page="@ =~= seq!['/'] + word);
    let rest = word + (text::decimal(page) + tail);
    let other_rest = word + (text::decimal(other_page) + tail);
    assert(repositories_url(url, project, page) =~= head + (project + seq!['/'] + rest));
    assert(repositories_url(url, other, other_page) =~= head + (other + seq!['/'] + other_rest));
    lemma_same_prefix(head, project + seq!['/'] + rest, head, other + seq!['/'] + other_rest);
    lemma_cut_at_first(project, rest, other, other_rest, '/');
    lemma_same_prefix(word, text::decimal(page) + tail, word, text::decimal(other_page) + tail);
    assert((text::decimal(page) + tail).len() == (text::decimal(other_page) + tail).len());
    lemma_same_prefix(text::decimal(page), tail, text::decimal(other_page), tail);
    text::law_decimal_tells_numbers_apart(page, other_page);
}

/// From a request for artifacts it can be told which project, which repository
/// and which page is wanted, projects having no slash in their names and
/// repositories no encoded one.
pub proof fn law_requests_for_artifacts_differ(
    url: Seq<char>,
    project: Seq<char>,
    repository: Seq<char>,
    page: nat,
    other: Seq<char>,
    other_repository: Seq<char>,
    other_page: nat,
)
    requires
        !project.contains('/'),
        !other.contains('/'),
        forall|i: int| 0 <= i < repository.len() ==> !text::occurs_at(repository, "%252F"@, i),
        forall|i: int|
            0 <= i < other_repository.len() ==> !text::occurs_at(other_repository, "%252F"@, i),
        artifacts_url(url, project, repository, page) == artifacts_url(
            url,
            other,
            other_repository,
            other_page,
        ),
    ensures
        project == other,
        repository == other_repository,
        page == other_page,
{
    reveal_strlit("/repositories/");
    reveal_strlit("repositories/");
    reveal_strlit("/artifacts?page=");
    reveal_strlit("artifacts?page=");
    let head = url + "/api/v2.0/projects/"@;
    let tail = "&page_size="@ + text::decimal(PAGE_SIZE as nat) + "&with_tag=true"@;
    let (first, second) = ("repositories/"@, "artifacts?page="@);
    assert("/repositories/"@ =~= seq!['/'] + first);
    assert("/artifacts?page="@ =~= seq!['/'] + second);
    let segment = encoded_repository(repository);
    let other_segment = encoded_repository(other_repository);
    let end = second + (text::decimal(page) + tail);
    let other_end = second + (text::decimal(other_page) + tail);
    let rest = first + (segment + seq!['/'] + end);
    let other_rest = first + (other_segment + seq!['/'] + other_end);
    assert(artifacts_url(url, project, repository, page) =~= head + (project + seq!['/'] + rest));
    assert(artifacts_url(url, other, other_repository, other_page) =~= head + (other + seq!['/']
        + other_rest));
    lemma_same_prefix(head, project + seq!['/'] + rest, head, other + seq!['/'] + other_rest);
    lemma_cut_at_first(project, rest, other, other_rest, '/');
    lemma_same_prefix(
        first,
        segment + seq!['/'] + end,
        first,
        other_segment + seq!['/'] + other_end,
    );
    law_encoded_name_is_one_segment(repository);
    law_encoded_name_is_one_segment(other_repository);
    lemma_cut_at_first(segment, end, other_segment, other_end, '/');
    law_encoding_can_be_turned_back(repository);
    law_encoding_can_be_turned_back(other_repository);
    lemma_same_prefix(second, text::decimal(page) + tail, second, text::decimal(other_page) + tail);
    assert((text::decimal(page) + tail).len() == (text::decimal(other_page) + tail).len());
    lemma_same_prefix(text::decimal(page), tail, text::decimal(other_page), tail);
    text::law_decimal_tells_numbers_apart(page, other_page);
}

/// Success is what begins with a two, of the statuses of three digits.
pub proof fn law_success_begins_with_two(status: u16)
    ensures
        is_success(status) <==> status / 100 == 2,
{
}

/// A listing of repositories begins at page one with nothing found, and stays
/// with its registry and its project. A page adds each of its names after the
/// ones that were found before, in its order, and leads to the next page.
pub proof fn law_listing_of_repositories(
    url: Seq<char>,
    project: Seq<char>,
    listing: RepositoryListingView,
    names: Seq<Seq<char>>,
)
    ensures
        ({
            let start = RepositoryListingView::start(url, project);
            &&& start.url == url && start.project == project
            &&& start.page == 1 && start.found.len() == 0
        }),
        ({
            let next = listing.received(names);
            &&& next.url == listing.url && next.project == listing.project
            &&& next.page == listing.page + 1
            &&& next.found.len() == listing.found.len() + names.len()
            &&& forall|i: int|
                0 <= i < listing.found.len() ==> #[trigger] next.found[i] == listing.found[i]
            &&& forall|i: int|
                0 <= i < names.len() ==> next.found[listing.found.len() + i] == within_project(
                    #[trigger] names[i],
                )
        }),
{
}

/// A listing of artifacts begins at page one with nothing found, and stays with
/// its registry, its project and its repository. A page adds each of its
/// artifacts after the ones that were found before, in its order, and leads to
/// the next page.
pub proof fn law_listing_of_artifacts(
    url: Seq<char>,
    project: Seq<char>,
    repository: Seq<char>,
    listing: ArtifactListingView,
    artifacts: Seq<ArtifactView>,
)
    ensures
        ({
            let start = ArtifactListingView::start(url, project, repository);
            &&& start.url == url && start.project == project && start.repository == repository
            &&& start.page == 1 && start.found.len() == 0
        }),
        ({
            let next = listing.received(artifacts);
            &&& next.url == listing.url && next.project == listing.project
            &&& next.repository == listing.repository && next.page == listing.page + 1
            &&& next.found.len() == listing.found.len() + artifacts.len()
            &&& forall|i: int|
                0 <= i < listing.found.len() ==> #[trigger] next.found[i] == listing.found[i]
            &&& forall|i: int|
                0 <= i < artifacts.len() ==> next.found[listing.found.len() + i]
                    == #[trigger] artifacts[i]
        }),
{
}

/// A refusal says what could not be listed and, after a colon, the whole text
/// of the status.
pub proof fn law_refusal_says_what_and_why(what: Seq<char>, status_text: Seq<char>)
    ensures
        ({
            let text = refusal_text(what, status_text);
            let n = (15 + what.len()) as int;
            &&& text.take(15) == "Failed to list "@
            &&& text.subrange(15, n) == what
            &&& text.subrange(n, n + 2) == ": "@
            &&& text.skip(n + 2) == status_text
        }),
{
    reveal_strlit("Failed to list ");
    reveal_strlit(": ");
    let text = refusal_text(what, status_text);
    let n = (15 + what.len()) as int;
    assert(text.take(15) =~= "Failed to list "@);
    assert(text.subrange(15, n) =~= what);
    assert(text.subrange(n, n + 2) =~= ": "@);
    assert(text.skip(n + 2) =~= status_text);
}

} // verus!
