use harbor_migrator::config::{HarborConfig, ProjectConfig};
use harbor_migrator::image::ImageRef;
use harbor_migrator::migrator::Migrator;
use harbor_migrator::report::summary;
use harbor_migrator::state::{CompletedSet, MigrationState, Timestamp};

const NOON: Timestamp = Timestamp { secs: 1_700_000_000, nanos: 5 };
const LATER: Timestamp = Timestamp { secs: 1_700_000_100, nanos: 0 };

fn image(repository: &str) -> ImageRef {
    ImageRef {
        project: ProjectConfig { source: "p".to_string(), destination: "q".to_string() },
        repository: repository.to_string(),
        tag: "1".to_string(),
    }
}

fn migrator() -> Migrator {
    let harbor = || HarborConfig {
        url: "https://h".to_string(),
        username: "u".to_string(),
        password: "s".to_string(),
    };
    Migrator::new(harbor(), harbor(), "state.json".to_string(), false).unwrap()
}

#[test]
fn a_new_state_is_empty() {
    let state = MigrationState::new_at(NOON);
    assert_eq!(state.started_at(), NOON);
    assert_eq!(state.last_updated(), NOON);
    assert_eq!(state.completed_count(), 0);
    assert!(state.completed_refs().is_empty());
    assert!(state.failures().is_empty());
    assert_eq!(state.total_images(), 0);
    assert!(!state.is_completed("a"));
}

#[test]
fn a_new_state_is_of_now() {
    let before = chrono::Utc::now().timestamp();
    let state = MigrationState::new();
    let after = chrono::Utc::now().timestamp();
    assert!(before <= state.started_at().secs && state.started_at().secs <= after);
    assert!(state.started_at().nanos < 1_000_000_000);
    assert_eq!(state.started_at(), state.last_updated());
}

#[test]
fn completed_images_are_remembered() {
    let mut state = MigrationState::new_at(NOON);
    state.mark_completed_at("a", LATER);
    assert!(state.is_completed("a"));
    assert!(!state.is_completed("b"));
    assert!(!state.is_completed(""));
    assert_eq!(state.last_updated(), LATER);
    assert_eq!(state.started_at(), NOON);
}

#[test]
fn completing_twice_counts_once() {
    let mut state = MigrationState::new_at(NOON);
    state.mark_completed("a");
    state.mark_completed("b");
    state.mark_completed("a");
    assert_eq!(state.completed_count(), 2);
    assert_eq!(state.completed_refs().as_slice(), ["a", "b"]);
}

#[test]
fn the_order_of_completion_does_not_matter() {
    let mut one = MigrationState::new_at(NOON);
    one.mark_completed_at("a", NOON);
    one.mark_completed_at("b", LATER);
    let mut other = MigrationState::new_at(NOON);
    other.mark_completed_at("b", NOON);
    other.mark_completed_at("a", LATER);
    for image_ref in ["a", "b", "c"] {
        assert_eq!(one.is_completed(image_ref), other.is_completed(image_ref));
    }
    assert_eq!(one.last_updated(), other.last_updated());
}

#[test]
fn any_order_of_marks_completes_the_same() {
    let mut one = MigrationState::new_at(NOON);
    for image_ref in ["a", "b", "c"] {
        one.mark_completed_at(image_ref, NOON);
    }
    let mut other = MigrationState::new_at(NOON);
    for image_ref in ["c", "a", "c", "b"] {
        other.mark_completed_at(image_ref, LATER);
    }
    let mut refs = other.completed_refs().clone();
    refs.sort();
    assert_eq!(one.completed_refs(), &refs);
    assert_eq!(other.completed_count(), 3);
}

#[test]
fn the_order_of_results_does_not_matter_to_what_failed() {
    let failures = |tags: &[&str]| {
        let results: Vec<(ImageRef, Result<(), String>)> = tags
            .iter()
            .map(|tag| (image(tag), if *tag == "2" { Ok(()) } else { Err(format!("e{}", tag)) }))
            .collect();
        let mut state = MigrationState::new_at(NOON);
        state.record_results(&results);
        state.failures().clone()
    };
    let one = failures(&["1", "2", "3", "3"]);
    let mut other = failures(&["3", "1", "3", "2"]);
    assert_ne!(one, other);
    other.sort();
    assert_eq!(one, other);
}

#[test]
fn failures_are_kept_in_order() {
    let mut state = MigrationState::new_at(NOON);
    state.mark_failed_at("a", "first", LATER);
    state.mark_failed("a", "second");
    assert_eq!(
        state.failures().as_slice(),
        [
            ("a".to_string(), "first".to_string()),
            ("a".to_string(), "second".to_string()),
        ]
    );
    assert!(!state.is_completed("a"));
    assert!(state.last_updated().secs > LATER.secs);
}

#[test]
fn a_mark_is_of_now() {
    let mut state = MigrationState::new_at(NOON);
    let before = chrono::Utc::now().timestamp();
    state.mark_completed("a");
    assert!(state.last_updated().secs >= before);
}

#[test]
fn a_saved_state_is_restored() {
    let mut state = MigrationState::new_at(NOON);
    assert!(state.begin_run(7));
    state.mark_completed_at("a", NOON);
    state.mark_completed_at("b", NOON);
    state.mark_failed_at("c", "broken", LATER);
    let restored = MigrationState::from_parts(
        state.started_at(),
        state.last_updated(),
        state.completed_refs(),
        state.failures().clone(),
        state.total_images(),
    );
    assert_eq!(restored.started_at(), NOON);
    assert_eq!(restored.last_updated(), LATER);
    assert_eq!(restored.completed_refs(), state.completed_refs());
    assert!(restored.is_completed("a") && restored.is_completed("b"));
    assert!(!restored.is_completed("c"));
    assert_eq!(restored.failures(), state.failures());
    assert_eq!(restored.total_images(), 7);
}

#[test]
fn a_reference_that_was_saved_twice_counts_once() {
    let saved = vec!["a".to_string(), "b".to_string(), "a".to_string()];
    let state = MigrationState::from_parts(NOON, NOON, &saved, Vec::new(), 3);
    assert_eq!(state.completed_count(), 2);
}

#[test]
fn a_set_keeps_its_order() {
    let mut set = CompletedSet::new();
    set.insert("b");
    set.insert("a");
    set.insert("b");
    assert_eq!(set.len(), 2);
    assert!(set.contains("a"));
    assert_eq!(set.refs().as_slice(), ["b", "a"]);
}

#[test]
fn a_run_of_nothing_changes_nothing() {
    let mut state = MigrationState::from_parts(NOON, NOON, &Vec::new(), Vec::new(), 3);
    assert!(!state.begin_run(0));
    assert_eq!(state.total_images(), 3);
    assert!(state.begin_run(5));
    assert_eq!(state.total_images(), 5);
    assert_eq!(state.last_updated(), NOON);
}

#[test]
fn the_failures_of_a_run_are_recorded() {
    let mut state = MigrationState::new_at(NOON);
    state.mark_failed_at("old", "error", NOON);
    state.record_results(&vec![
        (image("a"), Ok(())),
        (image("b"), Err("broken".to_string())),
        (image("c"), Ok(())),
        (image("d"), Err("denied".to_string())),
    ]);
    assert_eq!(
        state.failures().as_slice(),
        [
            ("old".to_string(), "error".to_string()),
            ("(source)p/b:1->(destination)q/b:1".to_string(), "broken".to_string()),
            ("(source)p/d:1->(destination)q/d:1".to_string(), "denied".to_string()),
        ]
    );
    assert_eq!(state.completed_count(), 0);
    assert!(state.last_updated().secs > NOON.secs);
}

#[test]
fn a_run_without_failures_leaves_the_state() {
    let mut state = MigrationState::new_at(NOON);
    state.record_results(&vec![(image("a"), Ok(()))]);
    state.record_results(&Vec::new());
    assert!(state.failures().is_empty());
    assert_eq!(state.last_updated(), NOON);
}

#[test]
fn a_migration_goes_on_from_a_saved_state() {
    let mut migrator = migrator();
    migrator.load_state(None);
    assert_eq!(migrator.state().completed_count(), 0);
    let mut saved = MigrationState::new_at(NOON);
    saved.mark_completed_at("a", LATER);
    migrator.load_state(Some(saved));
    assert!(migrator.state().is_completed("a"));
    assert_eq!(migrator.state().started_at(), NOON);
}

#[test]
fn a_migration_counts_its_images() {
    let mut migrator = migrator();
    assert!(!migrator.begin_run(&Vec::new()));
    assert!(migrator.begin_run(&vec![image("a"), image("b")]));
    assert_eq!(migrator.state().total_images(), 2);
    migrator.mark_completed(&image("a").to_string());
    migrator.finish_run(&vec![
        (image("a"), Ok(())),
        (image("b"), Err("broken".to_string())),
    ]);
    let lines = migrator.summary();
    assert_eq!(lines[3], "Total images: 2");
    assert_eq!(lines[4], "Completed: 1");
    assert_eq!(lines[5], "Failed: 1");
    assert_eq!(lines[9], "  ❌ (source)p/b:1->(destination)q/b:1: broken");
}

#[test]
fn a_migration_searches_its_source() {
    let projects = vec![ProjectConfig { source: "p".to_string(), destination: "q".to_string() }];
    assert_eq!(migrator().collect_all_images(projects).message(), "Scanning project: p");
}

#[test]
fn the_summary_of_a_clean_run() {
    let mut state = MigrationState::new_at(NOON);
    state.begin_run(120);
    state.mark_completed("a");
    assert_eq!(
        summary(&state),
        [
            "\n=========================",
            "\n=   Migration Summary   =",
            "\n=========================",
            "Total images: 120",
            "Completed: 1",
            "Failed: 0",
            "\n=========================",
            "\n",
        ]
    );
}

#[test]
fn the_summary_lists_what_failed() {
    let mut state = MigrationState::new_at(NOON);
    state.mark_failed("a", "first");
    state.mark_failed("b", "second");
    let lines = summary(&state);
    assert_eq!(lines[5], "Failed: 2");
    assert_eq!(&lines[8..], ["\nFailed migrations:", "  ❌ a: first", "  ❌ b: second"]);
}
