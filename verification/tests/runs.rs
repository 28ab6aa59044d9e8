use harbor_migrator::config::{HarborConfig, ProjectConfig};
use harbor_migrator::image::ImageRef;
use harbor_migrator::migrator::Migrator;
use harbor_migrator::state::{MigrationState, Timestamp};
use harbor_migrator::transfer::{Action, Command, Outcome, Progress, Transfer};

fn harbor(url: &str) -> HarborConfig {
    HarborConfig {
        url: url.to_string(),
        username: "admin".to_string(),
        password: "password".to_string(),
    }
}

fn migrator(dry_run: bool) -> Migrator {
    let source = harbor("https://harbor-a.example.com");
    let destination = harbor("https://harbor-b.example.com");
    Migrator::new(source, destination, "state.json".to_string(), dry_run).unwrap()
}

fn image(tag: &str) -> ImageRef {
    ImageRef {
        project: ProjectConfig { source: "p".to_string(), destination: "q".to_string() },
        repository: "app".to_string(),
        tag: tag.to_string(),
    }
}

fn images(tags: &[&str]) -> Vec<ImageRef> {
    tags.iter().map(|tag| image(tag)).collect()
}

fn reference(tag: &str) -> String {
    format!("(source)p/app:{}->(destination)q/app:{}", tag, tag)
}

/// Images whose tag begins with `x` cannot be fetched, those with `y` cannot be
/// uploaded; everything else goes well.
fn outcome(image: &ImageRef, action: &Action) -> Outcome {
    match action {
        Action::Docker { command: Command::Pull { .. } } => {
            Outcome::exited(!image.tag.starts_with('x'), b"no such image")
        }
        Action::Docker { command: Command::Push { .. } } => {
            Outcome::exited(!image.tag.starts_with('y'), b"denied")
        }
        _ => Outcome::Done,
    }
}

/// Runs the transfers side by side, at most `limit` at once. `pick` says which
/// of the transfers that may move does, from the number of moves so far and
/// the number of transfers to pick from.
fn run(
    migrator: &mut Migrator,
    images: Vec<ImageRef>,
    limit: usize,
    pick: impl Fn(usize, usize) -> usize,
) -> usize {
    run_with(migrator, images, limit, pick, outcome)
}

/// The same, where `outcome` says how an action goes.
fn run_with(
    migrator: &mut Migrator,
    images: Vec<ImageRef>,
    limit: usize,
    pick: impl Fn(usize, usize) -> usize,
    mut outcome: impl FnMut(&ImageRef, &Action) -> Outcome,
) -> usize {
    if !migrator.begin_run(&images) {
        return 0;
    }
    let mut waiting = images;
    waiting.reverse();
    let mut running: Vec<(ImageRef, Transfer)> = Vec::new();
    let mut results: Vec<(ImageRef, Result<(), String>)> = Vec::new();
    let mut moves = 0;
    loop {
        let may_start = !waiting.is_empty() && running.len() < limit;
        let choices = running.len() + if may_start { 1 } else { 0 };
        if choices == 0 {
            break;
        }
        let choice = pick(moves, choices);
        moves += 1;
        if choice == running.len() {
            let image = waiting.pop().unwrap();
            let transfer = migrator.migrate_image(&image);
            running.push((image, transfer));
            continue;
        }
        let went = {
            let (image, transfer) = &running[choice];
            if let Action::MarkCompleted { image_ref } = transfer.action() {
                migrator.mark_completed(image_ref);
            }
            outcome(image, transfer.action())
        };
        match running[choice].1.report(&went) {
            Progress::Continue => {}
            Progress::Finished(result) => {
                let (image, _) = running.remove(choice);
                results.push((image, result));
            }
        }
    }
    migrator.finish_run(&results);
    moves
}

fn completed(migrator: &Migrator) -> Vec<String> {
    let mut refs = migrator.state().completed_refs().clone();
    refs.sort();
    refs
}

fn failed(migrator: &Migrator) -> Vec<(String, String)> {
    let mut failures = migrator.state().failures().clone();
    failures.sort();
    failures
}

const NOON: Timestamp = Timestamp { secs: 1_700_000_000, nanos: 5 };
const TAGS: [&str; 7] = ["1", "x1", "2", "y1", "3", "x2", "4"];

#[test]
fn concurrency_does_not_matter() {
    let mut one_by_one = migrator(false);
    run(&mut one_by_one, images(&TAGS), 1, |_, _| 0);
    let mut newest_first = migrator(false);
    run(&mut newest_first, images(&TAGS), 4, |_, choices| choices - 1);
    let mut mixed = migrator(false);
    run(&mut mixed, images(&TAGS), 3, |moves, choices| (moves * moves + 1) % choices);
    for other in [&newest_first, &mixed] {
        assert_eq!(completed(other), completed(&one_by_one));
        assert_eq!(failed(other), failed(&one_by_one));
        assert_eq!(other.state().total_images(), 7);
    }
    assert_eq!(completed(&one_by_one), ["1", "2", "3", "4"].map(reference));
    assert_eq!(
        failed(&one_by_one),
        [
            (reference("x1"), "Failed to pull image: no such image".to_string()),
            (reference("x2"), "Failed to pull image: no such image".to_string()),
            (reference("y1"), "Failed to push image: denied".to_string()),
        ]
    );
}

#[test]
fn failures_are_listed_in_the_order_in_which_they_ended() {
    let mut one_by_one = migrator(false);
    run(&mut one_by_one, images(&["y1", "x1"]), 1, |_, _| 0);
    let refs: Vec<String> = one_by_one.state().failures().iter().map(|f| f.0.clone()).collect();
    assert_eq!(refs, ["y1", "x1"].map(reference));
    // Side by side the one that fails at its pull is through first.
    let mut side_by_side = migrator(false);
    run(&mut side_by_side, images(&["y1", "x1"]), 2, |moves, choices| (moves + 1) % choices);
    let refs: Vec<String> = side_by_side.state().failures().iter().map(|f| f.0.clone()).collect();
    assert_eq!(refs, ["x1", "y1"].map(reference));
}

#[test]
fn the_figures_of_a_fresh_run_add_up() {
    let mut m = migrator(false);
    run(&mut m, images(&TAGS), 2, |moves, choices| moves % choices);
    assert_eq!(m.state().completed_count() + m.state().failures().len(), 7);
    assert_eq!(m.state().total_images(), 7);
    for tag in TAGS {
        let has_failed = m.state().failures().iter().any(|f| f.0 == reference(tag));
        assert_eq!(m.state().is_completed(&reference(tag)), !has_failed);
    }
}

#[test]
fn a_dry_run_records_nothing() {
    let mut m = migrator(true);
    run(&mut m, images(&TAGS), 2, |moves, choices| moves % choices);
    assert_eq!(m.state().completed_count(), 0);
    assert!(m.state().failures().is_empty());
    assert_eq!(m.state().total_images(), 7);
}

#[test]
fn a_second_run_takes_up_what_failed_and_skips_the_rest() {
    let mut m = migrator(false);
    run(&mut m, images(&["1", "x1", "2"]), 2, |_, choices| choices - 1);
    let moves = run(&mut m, images(&["1", "x1", "2"]), 2, |_, _| 0);
    // A skipped image starts and concludes; the other one gets to its pull.
    assert_eq!(moves, 2 + 4 + 2);
    assert_eq!(completed(&m), ["1", "2"].map(reference));
    assert_eq!(m.state().failures().len(), 2);
}

#[test]
fn a_run_over_completed_images_records_nothing() {
    let mut m = migrator(false);
    run(&mut m, images(&["1", "2"]), 2, |_, choices| choices - 1);
    let before = m.state().last_updated();
    let moves = run(&mut m, images(&["2", "1"]), 1, |_, _| 0);
    assert_eq!(moves, 4);
    assert_eq!(completed(&m), ["1", "2"].map(reference));
    assert!(m.state().failures().is_empty());
    assert_eq!(m.state().last_updated(), before);
}

#[test]
fn a_run_takes_eleven_moves_for_each_image_at_most() {
    let mut m = migrator(false);
    let moves = run(&mut m, images(&["1", "2", "3"]), 3, |moves, choices| moves % choices);
    assert_eq!(moves, 33);
}

#[test]
fn a_dry_run_over_an_image_that_is_listed_twice_records_nothing() {
    let mut m = migrator(true);
    let before = m.state().last_updated();
    run(&mut m, images(&["1", "x1", "1"]), 3, |moves, choices| moves % choices);
    assert_eq!(m.state().completed_count(), 0);
    assert!(m.state().failures().is_empty());
    assert_eq!(m.state().total_images(), 3);
    assert_eq!(m.state().last_updated(), before);
}

#[test]
fn a_rerun_over_an_image_that_is_listed_twice_records_nothing() {
    let mut m = migrator(false);
    run(&mut m, images(&["1"]), 1, |_, _| 0);
    let before = m.state().last_updated();
    run(&mut m, images(&["1", "1"]), 2, |_, choices| choices - 1);
    assert_eq!(completed(&m), ["1"].map(reference));
    assert!(m.state().failures().is_empty());
    assert_eq!(m.state().total_images(), 2);
    assert_eq!(m.state().last_updated(), before);
}

#[test]
fn an_image_that_is_listed_twice_is_completed_or_failed() {
    let mut m = migrator(false);
    m.mark_completed("elsewhere");
    run(&mut m, images(&["1", "x1", "1", "x1"]), 3, |moves, choices| (moves * 3) % choices);
    assert_eq!(completed(&m), [reference("1"), "elsewhere".to_string()]);
    let failure = (reference("x1"), "Failed to pull image: no such image".to_string());
    assert_eq!(failed(&m), [failure.clone(), failure]);
    assert_eq!(m.state().total_images(), 4);
}

#[test]
fn an_image_that_is_listed_twice_may_be_completed_and_failed() {
    let mut m = migrator(false);
    let mut pulls = 0;
    let first_pull_fails = |_: &ImageRef, action: &Action| match action {
        Action::Docker { command: Command::Pull { .. } } => {
            pulls += 1;
            Outcome::exited(pulls > 1, b"busy")
        }
        _ => Outcome::Done,
    };
    run_with(&mut m, images(&["1", "1"]), 2, |moves, choices| moves % choices, first_pull_fails);
    assert_eq!(completed(&m), ["1"].map(reference));
    assert_eq!(failed(&m), [(reference("1"), "Failed to pull image: busy".to_string())]);
}

#[test]
fn a_failed_save_leaves_the_image_completed_and_failed() {
    let mut m = migrator(false);
    let save_fails = |_: &ImageRef, action: &Action| match action {
        Action::SaveState => Outcome::Error { message: "disk full".to_string() },
        _ => Outcome::Done,
    };
    run_with(&mut m, images(&["1"]), 1, |_, _| 0, save_fails);
    assert_eq!(completed(&m), ["1"].map(reference));
    assert_eq!(failed(&m), [(reference("1"), "disk full".to_string())]);
}

#[test]
fn the_figures_of_a_first_run_add_up_whatever_was_counted_before() {
    let mut m = migrator(false);
    m.load_state(Some(MigrationState::from_parts(NOON, NOON, &Vec::new(), Vec::new(), 99)));
    run(&mut m, images(&TAGS), 2, |moves, choices| moves % choices);
    assert_eq!(m.state().completed_count() + m.state().failures().len(), 7);
    assert_eq!(m.state().total_images(), 7);
    assert_eq!(m.state().started_at(), NOON);
    // Where there are no images, the count stays.
    let mut m = migrator(false);
    m.load_state(Some(MigrationState::from_parts(NOON, NOON, &Vec::new(), Vec::new(), 99)));
    assert_eq!(run(&mut m, Vec::new(), 2, |_, _| 0), 0);
    assert_eq!(m.state().total_images(), 99);
}

#[test]
fn a_saved_migration_is_gone_on_with() {
    let mut m = migrator(false);
    run(&mut m, images(&TAGS), 2, |moves, choices| moves % choices);
    let state = m.state();
    let mut refs = state.completed_refs().clone();
    refs.reverse();
    let mut other = migrator(false);
    other.load_state(Some(MigrationState::from_parts(
        state.started_at(),
        state.last_updated(),
        &refs,
        state.failures().clone(),
        state.total_images(),
    )));
    assert_eq!(completed(&other), completed(&m));
    assert_eq!(other.state().failures(), m.state().failures());
    assert_eq!(other.state().started_at(), m.state().started_at());
    assert_eq!(other.state().last_updated(), m.state().last_updated());
    assert_eq!(other.state().total_images(), 7);
}
