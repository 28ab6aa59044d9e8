use harbor_migrator::config::ProjectConfig;
use harbor_migrator::image::{host_of, ImageRef};

fn image(source: &str, destination: &str, repository: &str, tag: &str) -> ImageRef {
    ImageRef {
        project: ProjectConfig {
            source: source.to_string(),
            destination: destination.to_string(),
        },
        repository: repository.to_string(),
        tag: tag.to_string(),
    }
}

#[test]
fn the_reference_names_both_ends() {
    assert_eq!(
        image("project1", "project1-migrated", "team/app", "1.0").to_string(),
        "(source)project1/team/app:1.0->(destination)project1-migrated/team/app:1.0"
    );
}

#[test]
fn the_label_is_repository_and_tag() {
    assert_eq!(image("p", "q", "team/app", "1.0").label(), "team/app:1.0");
}

#[test]
fn images_of_one_project_are_told_apart_by_label() {
    let a = image("p", "q", "app", "1");
    assert_ne!(a.to_string(), image("p", "q", "app", "2").to_string());
    assert_ne!(a.to_string(), image("p", "q", "api", "1").to_string());
    // A colon in a tag is ambiguous; registries do not allow it.
    assert_eq!(
        image("p", "q", "a", "b:c").to_string(),
        image("p", "q", "a:b", "c").to_string()
    );
}

#[test]
fn images_of_different_projects_are_told_apart() {
    assert_ne!(
        image("p", "q", "app", "1").to_string(),
        image("r", "q", "app", "1").to_string()
    );
    assert_ne!(
        image("p", "q", "app", "1").to_string(),
        image("p", "r", "app", "1").to_string()
    );
    // A slash in a project is ambiguous; registries do not allow it.
    assert_eq!(
        image("a", "d", "b/c", "1").to_string(),
        image("a/b", "d/b", "c", "1").to_string()
    );
}

#[test]
fn the_host_has_no_scheme() {
    assert_eq!(host_of("https://harbor-a.example.com"), "harbor-a.example.com");
    assert_eq!(host_of("http://harbor-a.example.com:8080"), "harbor-a.example.com:8080");
    assert_eq!(host_of("harbor-a.example.com"), "harbor-a.example.com");
    assert_eq!(host_of(""), "");
}

#[test]
fn every_scheme_is_taken_out_of_the_host() {
    assert_eq!(host_of("https://a/https://b"), "a/b");
    assert_eq!(host_of("http://a/https://b"), "a/b");
    // Taking out the inner scheme leaves one that is taken out in turn.
    assert_eq!(host_of("hthttps://tp://a"), "a");
    assert_eq!(host_of("hthttp://tp://a"), "http://a");
    assert_eq!(host_of("htthttps://ps://a"), "https://a");
}

#[test]
fn the_host_matches_the_standard_replacement() {
    for url in ["https://https://x", "hhttp://x", "http:/x", "httphttp://x://y", "é://http://ü"] {
        assert_eq!(
            host_of(url),
            url.replace("https://", "").replace("http://", "")
        );
    }
}

#[test]
fn an_image_is_fetched_from_its_project() {
    let image = image("project1", "project1-migrated", "team/app", "1.0");
    assert_eq!(
        image.at("https://harbor-a.example.com", "project1"),
        "harbor-a.example.com/project1/team/app:1.0"
    );
}

#[test]
fn a_slash_at_the_end_of_the_url_stays_in_the_name() {
    let image = image("p", "q", "app", "1");
    assert_eq!(image.at("https://h/", "p"), "h//p/app:1");
}

#[test]
fn a_clone_is_the_same_image() {
    let a = image("p", "q", "app", "1");
    assert_eq!(a.clone().to_string(), a.to_string());
}
