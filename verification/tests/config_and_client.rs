use harbor_migrator::client::HarborClient;
use harbor_migrator::config::{Config, HarborConfig, ProjectConfig};
use harbor_migrator::migrator::Migrator;

fn harbor(username: &str, password: &str) -> HarborConfig {
    HarborConfig {
        url: "https://harbor-a.example.com".to_string(),
        username: username.to_string(),
        password: password.to_string(),
    }
}

fn auth(username: &str, password: &str) -> String {
    let config = harbor(username, password);
    assert!(config.auth_fits());
    config.basic_auth()
}

#[test]
fn new_drops_the_slashes_at_the_end_of_the_url() {
    let config = HarborConfig::new(
        "https://harbor-a.example.com//".to_string(),
        "robot$migration".to_string(),
        "source-password".to_string(),
    );
    assert_eq!(config.url, "https://harbor-a.example.com");
    assert_eq!(config.username, "robot$migration");
    assert_eq!(config.password, "source-password");
}

#[test]
fn new_keeps_the_slashes_inside_the_url() {
    let config = HarborConfig::new("http://h/a//b".to_string(), String::new(), String::new());
    assert_eq!(config.url, "http://h/a//b");
}

#[test]
fn a_url_of_slashes_becomes_empty() {
    let config = HarborConfig::new("///".to_string(), String::new(), String::new());
    assert_eq!(config.url, "");
}

#[test]
fn trimming_twice_changes_nothing() {
    let once = HarborConfig::new("https://h/".to_string(), String::new(), String::new());
    let twice = HarborConfig::new(once.url.clone(), String::new(), String::new());
    assert_eq!(once.url, twice.url);
}

#[test]
fn basic_auth_without_padding() {
    assert_eq!(auth("a", "b"), "Basic YTpi");
}

#[test]
fn basic_auth_with_one_padding_character() {
    assert_eq!(auth("a", ""), "Basic YTo=");
}

#[test]
fn basic_auth_with_two_padding_characters() {
    assert_eq!(auth("", ""), "Basic Og==");
}

#[test]
fn basic_auth_of_a_long_credential() {
    assert_eq!(auth("Aladdin", "open sesame"), "Basic QWxhZGRpbjpvcGVuIHNlc2FtZQ==");
    assert_eq!(
        auth("robot$migration", "source-password"),
        "Basic cm9ib3QkbWlncmF0aW9uOnNvdXJjZS1wYXNzd29yZA=="
    );
}

#[test]
fn basic_auth_uses_the_standard_alphabet() {
    assert_eq!(auth("a", ">>>???"), "Basic YTo+Pj4/Pz8=");
}

#[test]
fn basic_auth_encodes_utf_8() {
    assert_eq!(auth("ü", "p"), "Basic w7w6cA==");
}

#[test]
fn different_credentials_have_different_headers() {
    assert_ne!(auth("a", "b"), auth("a", "c"));
    assert_ne!(auth("a", ""), auth("", "a"));
    // Where the user ends is told by the colon alone.
    assert_eq!(auth("a:b", "c"), auth("a", "b:c"));
}

#[test]
fn a_client_can_be_made_for_any_credentials() {
    let client = HarborClient::new(harbor("line\nbreak", "\u{0}\u{7f}ü")).unwrap();
    let header = String::from_utf8(client.authorization().clone()).unwrap();
    assert!(header.starts_with("Basic "));
    assert!(header.bytes().all(|b| (32..127).contains(&b)));
    assert_eq!(client.config().username, "line\nbreak");
}

#[test]
fn a_client_sends_its_basic_auth() {
    let client = HarborClient::new(harbor("a", "b")).unwrap();
    assert_eq!(client.authorization().as_slice(), b"Basic YTpi");
    let value = reqwest::header::HeaderValue::from_bytes(client.authorization()).unwrap();
    assert_eq!(value.to_str().unwrap(), "Basic YTpi");
}

#[test]
fn a_client_lists_from_its_own_registry() {
    let client = HarborClient::new(harbor("a", "b")).unwrap();
    assert_eq!(
        client.list_repositories("project1").request(),
        "https://harbor-a.example.com/api/v2.0/projects/project1/repositories?page=1&page_size=100"
    );
    assert_eq!(
        client.list_artifacts("project1", "team/app").request(),
        "https://harbor-a.example.com/api/v2.0/projects/project1/repositories/team%252Fapp/artifacts?page=1&page_size=100&with_tag=true"
    );
}

#[test]
fn a_configuration_is_taken_as_it_is() {
    let config = Config {
        source: harbor("a", "b"),
        destination: HarborConfig {
            url: "https://harbor-b.example.com/".to_string(),
            username: "c".to_string(),
            password: "d".to_string(),
        },
        projects: vec![ProjectConfig {
            source: "project1".to_string(),
            destination: "project1-migrated".to_string(),
        }],
    };
    let migrator =
        Migrator::new(config.source, config.destination, "state.json".to_string(), false).unwrap();
    assert_eq!(migrator.destination().config().url, "https://harbor-b.example.com/");
    assert_eq!(migrator.source().authorization().as_slice(), b"Basic YTpi");
    assert_eq!(migrator.destination().authorization().as_slice(), b"Basic Yzpk");
    assert_eq!(migrator.state_file(), "state.json");
    assert_eq!(
        format!("{:?}", config.projects),
        "[ProjectConfig { source: \"project1\", destination: \"project1-migrated\" }]"
    );
}
