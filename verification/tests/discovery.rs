use harbor_migrator::config::ProjectConfig;
use harbor_migrator::discovery::{Discovery, Request};
use harbor_migrator::listing::{Artifact, Repository, Tag};

fn project(source: &str, destination: &str) -> ProjectConfig {
    ProjectConfig { source: source.to_string(), destination: destination.to_string() }
}

fn repository(name: &str) -> Repository {
    Repository { name: name.to_string() }
}

fn artifact(tags: &[&str]) -> Artifact {
    Artifact { tags: Some(tags.iter().map(|t| Tag { name: t.to_string() }).collect()) }
}

/// Answers a request for repositories with this page.
fn repositories_page(discovery: Discovery, page: Vec<Repository>) -> Discovery {
    match discovery.accept_repositories(200) {
        Ok(answer) => answer.receive(page),
        Err(error) => panic!("{}", error),
    }
}

/// Answers a request for artifacts with this page.
fn artifacts_page(discovery: Discovery, page: Vec<Artifact>) -> Discovery {
    match discovery.accept_artifacts(200) {
        Ok(answer) => answer.receive(page),
        Err(error) => panic!("{}", error),
    }
}

/// The page number that a URL asks for.
fn page_number(url: &str) -> usize {
    let rest = url.split("?page=").nth(1).unwrap();
    rest.split('&').next().unwrap().parse().unwrap()
}

/// Runs a discovery against a registry that answers by project and repository.
fn run(
    mut discovery: Discovery,
    repositories: impl Fn(&str) -> Vec<String>,
    artifacts: impl Fn(&str) -> Vec<Vec<String>>,
) -> (Vec<String>, usize) {
    let mut requests = 0;
    loop {
        discovery = match discovery.request() {
            Request::Nothing => break,
            Request::Repositories { url } => {
                requests += 1;
                let page = page_number(&url);
                let all = repositories(&url);
                let names = all.iter().skip((page - 1) * 100).take(100);
                repositories_page(discovery, names.map(|n| repository(n)).collect())
            }
            Request::Artifacts { url } => {
                requests += 1;
                let page = page_number(&url);
                let all = artifacts(&url);
                let page_of = all.iter().skip((page - 1) * 100).take(100);
                artifacts_page(discovery, 
                    page_of
                        .map(|tags| Artifact {
                            tags: Some(
                                tags.iter().map(|t| Tag { name: t.clone() }).collect(),
                            ),
                        })
                        .collect(),
                )
            }
        };
    }
    (discovery.into_images().iter().map(|i| i.to_string()).collect(), requests)
}

#[test]
fn without_projects_there_is_nothing_to_ask() {
    let discovery = Discovery::new("https://h", Vec::new());
    assert!(matches!(discovery.request(), Request::Nothing));
    assert_eq!(discovery.message(), "Found 0 images");
    assert!(discovery.into_images().is_empty());
}

#[test]
fn each_tag_is_an_image() {
    let discovery = Discovery::new("https://h", vec![project("p", "q")]);
    assert_eq!(discovery.message(), "Scanning project: p");
    match discovery.request() {
        Request::Repositories { url } => assert_eq!(
            url,
            "https://h/api/v2.0/projects/p/repositories?page=1&page_size=100"
        ),
        other => panic!("unexpected: {:?}", other),
    }
    let discovery = repositories_page(discovery, vec![repository("p/team/app")]);
    assert_eq!(discovery.message(), "Scanning repository: team/app");
    match discovery.request() {
        Request::Artifacts { url } => assert_eq!(
            url,
            "https://h/api/v2.0/projects/p/repositories/team%252Fapp/artifacts?page=1&page_size=100&with_tag=true"
        ),
        other => panic!("unexpected: {:?}", other),
    }
    let discovery = artifacts_page(discovery, vec![
        artifact(&["1.0", "latest"]),
        Artifact { tags: None },
        artifact(&[]),
        artifact(&["0.9"]),
    ]);
    assert!(matches!(discovery.request(), Request::Nothing));
    assert_eq!(discovery.message(), "Found 3 images");
    let images = discovery.into_images();
    let refs: Vec<String> = images.iter().map(|i| i.to_string()).collect();
    assert_eq!(
        refs,
        [
            "(source)p/team/app:1.0->(destination)q/team/app:1.0",
            "(source)p/team/app:latest->(destination)q/team/app:latest",
            "(source)p/team/app:0.9->(destination)q/team/app:0.9",
        ]
    );
    assert_eq!(images[0].at("https://h", "p"), "h/p/team/app:1.0");
}

#[test]
fn a_project_without_repositories_is_passed_over() {
    let discovery = Discovery::new("https://h", vec![project("p", "q"), project("r", "s")]);
    let discovery = repositories_page(discovery, Vec::new());
    assert_eq!(discovery.message(), "Scanning project: r");
    let discovery = repositories_page(discovery, Vec::new());
    assert!(matches!(discovery.request(), Request::Nothing));
}

#[test]
fn a_repository_without_artifacts_is_passed_over() {
    let discovery = Discovery::new("https://h", vec![project("p", "q")]);
    let discovery = repositories_page(discovery, vec![repository("p/a"), repository("p/b")]);
    let discovery = artifacts_page(discovery, Vec::new());
    assert_eq!(discovery.message(), "Scanning repository: b");
    let discovery = artifacts_page(discovery, vec![artifact(&["1"])]);
    assert_eq!(discovery.into_images().len(), 1);
}

#[test]
fn every_image_of_a_large_registry_is_found_once_and_in_order() {
    let discovery = Discovery::new("https://h", vec![project("p", "q"), project("r", "s")]);
    let repositories = |url: &str| -> Vec<String> {
        if url.contains("/projects/p/") {
            vec!["p/a".to_string(), "p/b".to_string()]
        } else {
            (0..200).map(|i| format!("r/n{}", i)).collect()
        }
    };
    let artifacts = |url: &str| -> Vec<Vec<String>> {
        if url.contains("/repositories/a/") {
            (0..250).map(|i| vec![format!("t{}", i)]).collect()
        } else if url.contains("/repositories/b/") {
            Vec::new()
        } else {
            vec![vec!["x".to_string(), "y".to_string()]]
        }
    };
    let (found, requests) = run(discovery, repositories, artifacts);
    let mut expected: Vec<String> =
        (0..250).map(|i| format!("(source)p/a:t{}->(destination)q/a:t{}", i, i)).collect();
    for i in 0..200 {
        for tag in ["x", "y"] {
            expected.push(format!("(source)r/n{}:{}->(destination)s/n{}:{}", i, tag, i, tag));
        }
    }
    assert_eq!(found, expected);
    // Two hundred repositories are two full pages and an empty one.
    assert_eq!(requests, 1 + 3 + 1 + 3 + 200);
}

#[test]
fn a_refused_request_for_repositories_ends_the_discovery() {
    let discovery = Discovery::new("https://h", vec![project("p", "q")]);
    match discovery.accept_repositories(404) {
        Ok(_) => panic!("accepted"),
        Err(error) => assert_eq!(error, "Failed to list repositories: 404 Not Found"),
    }
    let discovery = Discovery::new("https://h", vec![project("p", "q")]);
    match discovery.accept_repositories(300) {
        Ok(_) => panic!("accepted"),
        Err(error) => assert_eq!(error, "Failed to list repositories: 300 Multiple Choices"),
    }
}

#[test]
fn a_refused_request_for_artifacts_ends_the_discovery() {
    let discovery = Discovery::new("https://h", vec![project("p", "q")]);
    let discovery = repositories_page(discovery, vec![repository("p/a")]);
    match discovery.accept_artifacts(401) {
        Ok(_) => panic!("accepted"),
        Err(error) => assert_eq!(error, "Failed to list artifacts: 401 Unauthorized"),
    }
}

#[test]
fn every_status_of_success_is_accepted() {
    for status in [200, 204, 299] {
        let discovery = Discovery::new("https://h", vec![project("p", "q")]);
        let answer = match discovery.accept_repositories(status) {
            Ok(answer) => answer,
            Err(error) => panic!("{}", error),
        };
        let discovery = answer.receive(vec![repository("p/a")]);
        let answer = match discovery.accept_artifacts(status) {
            Ok(answer) => answer,
            Err(error) => panic!("{}", error),
        };
        assert_eq!(answer.receive(vec![artifact(&["1"])]).into_images().len(), 1);
    }
}

#[test]
fn lists_of_projects_add_up() {
    let repositories = |url: &str| -> Vec<String> {
        if url.contains("/projects/p/") {
            vec!["p/a".to_string()]
        } else {
            vec!["r/b".to_string(), "r/c".to_string()]
        }
    };
    let artifacts = |_: &str| -> Vec<Vec<String>> { vec![vec!["1".to_string()]] };
    let search = |projects| run(Discovery::new("https://h", projects), repositories, artifacts).0;
    let mut in_turn = search(vec![project("p", "q")]);
    in_turn.extend(search(vec![project("r", "s"), project("p", "t")]));
    let at_once = search(vec![project("p", "q"), project("r", "s"), project("p", "t")]);
    assert_eq!(at_once, in_turn);
    assert_eq!(at_once.len(), 4);
}
