use harbor_migrator::listing::{
    encode_repository, refusal, strip_project, Artifact, ArtifactListing, ArtifactStep,
    Repository, RepositoryListing, RepositoryStep, Tag, PAGE_SIZE,
};

fn repositories(names: &[&str]) -> Vec<Repository> {
    names.iter().map(|name| Repository { name: name.to_string() }).collect()
}

fn full_page(from: usize) -> Vec<Repository> {
    (from..from + PAGE_SIZE).map(|i| Repository { name: format!("p/r{}", i) }).collect()
}

fn artifact(tags: &[&str]) -> Artifact {
    Artifact { tags: Some(tags.iter().map(|t| Tag { name: t.to_string() }).collect()) }
}

#[test]
fn the_project_is_stripped_from_a_repository() {
    assert_eq!(strip_project(Repository { name: "project1/app".to_string() }).name, "app");
    assert_eq!(strip_project(Repository { name: "project1/team/app".to_string() }).name, "team/app");
}

#[test]
fn a_name_without_a_slash_is_kept() {
    assert_eq!(strip_project(Repository { name: "app".to_string() }).name, "app");
    assert_eq!(strip_project(Repository { name: "".to_string() }).name, "");
}

#[test]
fn a_slash_at_either_end_is_a_slash() {
    assert_eq!(strip_project(Repository { name: "/app".to_string() }).name, "app");
    assert_eq!(strip_project(Repository { name: "app/".to_string() }).name, "");
}

#[test]
fn slashes_are_encoded_twice() {
    assert_eq!(encode_repository("team/app"), "team%252Fapp");
    assert_eq!(encode_repository("a//b/"), "a%252F%252Fb%252F");
    assert_eq!(encode_repository("app"), "app");
    assert_eq!(encode_repository(""), "");
    assert_eq!(encode_repository("a%b/ü"), "a%b%252Fü");
}

#[test]
fn the_encoding_is_one_segment() {
    assert!(!encode_repository("a/b/c/").contains('/'));
}

#[test]
fn the_encoding_is_percent_encoding_applied_twice() {
    let name = "a/b//c";
    assert_eq!(encode_repository(name), name.replace('/', "%2F").replace('%', "%25"));
    // Percent signs of the name itself are not encoded.
    assert_ne!(encode_repository("%/"), "%/".replace('/', "%2F").replace('%', "%25"));
}

#[test]
fn the_encoding_can_be_turned_back() {
    for name in ["a/b//c", "/", "", "%252", "%252/F", "100%/ü"] {
        assert_eq!(encode_repository(name).replace("%252F", "/"), name);
    }
    // A name with an encoded slash of its own is the exception.
    assert_eq!(encode_repository("a%252Fb"), encode_repository("a/b"));
}

#[test]
fn success_is_taken() {
    for status in [200, 204, 299] {
        assert_eq!(RepositoryListing::check_status(status), Ok(()));
        assert_eq!(ArtifactListing::check_status(status), Ok(()));
    }
}

#[test]
fn anything_else_is_refused() {
    assert_eq!(
        RepositoryListing::check_status(404),
        Err("Failed to list repositories: 404 Not Found".to_string())
    );
    assert_eq!(
        ArtifactListing::check_status(401),
        Err("Failed to list artifacts: 401 Unauthorized".to_string())
    );
    assert_eq!(
        RepositoryListing::check_status(300),
        Err("Failed to list repositories: 300 Multiple Choices".to_string())
    );
    assert!(ArtifactListing::check_status(199).is_err());
    assert_eq!(
        ArtifactListing::check_status(599),
        Err("Failed to list artifacts: 599 <unknown status code>".to_string())
    );
}

#[test]
fn a_refusal_names_what_was_refused() {
    assert_eq!(refusal("artifacts", "503 Gone Fishing"), "Failed to list artifacts: 503 Gone Fishing");
}

#[test]
fn a_short_page_completes_the_repositories() {
    let listing = RepositoryListing::new("https://h", "p");
    match listing.receive(repositories(&["p/a", "p/b/c", "d"])) {
        RepositoryStep::Complete(found) => {
            let names: Vec<&str> = found.iter().map(|r| r.name.as_str()).collect();
            assert_eq!(names, ["a", "b/c", "d"]);
        }
        RepositoryStep::More(_) => panic!("the page was not full"),
    }
}

#[test]
fn an_empty_project_is_complete_at_once() {
    match RepositoryListing::new("https://h", "p").receive(Vec::new()) {
        RepositoryStep::Complete(found) => assert!(found.is_empty()),
        RepositoryStep::More(_) => panic!("the page was not full"),
    }
}

#[test]
fn a_full_page_asks_for_the_next_one() {
    let listing = RepositoryListing::new("https://h", "p");
    let listing = match listing.receive(full_page(0)) {
        RepositoryStep::More(listing) => listing,
        RepositoryStep::Complete(_) => panic!("the page was full"),
    };
    assert_eq!(
        listing.request(),
        "https://h/api/v2.0/projects/p/repositories?page=2&page_size=100"
    );
    match listing.receive(repositories(&["p/last"])) {
        RepositoryStep::Complete(found) => {
            assert_eq!(found.len(), 101);
            assert_eq!(found[0].name, "r0");
            assert_eq!(found[99].name, "r99");
            assert_eq!(found[100].name, "last");
        }
        RepositoryStep::More(_) => panic!("the page was not full"),
    }
}

#[test]
fn page_numbers_are_decimal() {
    let mut listing = RepositoryListing::new("https://h", "p");
    for i in 0..11 {
        listing = match listing.receive(full_page(i * PAGE_SIZE)) {
            RepositoryStep::More(listing) => listing,
            RepositoryStep::Complete(_) => panic!("the page was full"),
        };
    }
    assert!(listing.request().ends_with("?page=12&page_size=100"));
}

#[test]
fn artifacts_are_listed_page_by_page() {
    let listing = ArtifactListing::new("https://h", "p", "team/app");
    assert_eq!(
        listing.request(),
        "https://h/api/v2.0/projects/p/repositories/team%252Fapp/artifacts?page=1&page_size=100&with_tag=true"
    );
    let page: Vec<Artifact> = (0..PAGE_SIZE).map(|_| artifact(&["x"])).collect();
    let listing = match listing.receive(page) {
        ArtifactStep::More(listing) => listing,
        ArtifactStep::Complete(_) => panic!("the page was full"),
    };
    assert!(listing.request().ends_with("/artifacts?page=2&page_size=100&with_tag=true"));
    match listing.receive(vec![Artifact { tags: None }]) {
        ArtifactStep::Complete(found) => {
            assert_eq!(found.len(), 101);
            assert!(found[100].tags.is_none());
            assert_eq!(found[0].tags.as_ref().unwrap()[0].name, "x");
        }
        ArtifactStep::More(_) => panic!("the page was not full"),
    }
}
