use harbor_migrator::config::{HarborConfig, ProjectConfig};
use harbor_migrator::image::ImageRef;
use harbor_migrator::migrator::Migrator;
use harbor_migrator::transfer::{Action, Command, Outcome, Progress, Transfer};

const REF: &str = "(source)project1/team/app:1.0->(destination)project1-migrated/team/app:1.0";
const SOURCE: &str = "harbor-a.example.com/project1/team/app:1.0";
const TARGET: &str = "harbor-b.example.com/project1-migrated/team/app:1.0";

fn migrator(dry_run: bool) -> Migrator {
    Migrator::new(
        HarborConfig {
            url: "https://harbor-a.example.com".to_string(),
            username: "robot$migration".to_string(),
            password: "source-password".to_string(),
        },
        HarborConfig {
            url: "http://harbor-b.example.com".to_string(),
            username: "admin".to_string(),
            password: "dest-password".to_string(),
        },
        "migration_state.json".to_string(),
        dry_run,
    )
    .unwrap()
}

fn image() -> ImageRef {
    ImageRef {
        project: ProjectConfig {
            source: "project1".to_string(),
            destination: "project1-migrated".to_string(),
        },
        repository: "team/app".to_string(),
        tag: "1.0".to_string(),
    }
}

/// What an action is, in one line.
fn describe(action: &Action) -> String {
    match action {
        Action::Announce { message } => format!("announce {}", message),
        Action::Conclude { message } => format!("conclude {}", message),
        Action::Docker { command } => {
            let input = match command {
                Command::Login { password, .. } => format!(" < {}", password),
                _ => String::new(),
            };
            format!("docker {}{}", command.args().join(" "), input)
        }
        Action::MarkCompleted { image_ref } => format!("mark {}", image_ref),
        Action::SaveState => "save".to_string(),
    }
}

/// Performs a transfer; `outcome` says how each action goes.
fn run(
    mut transfer: Transfer,
    outcome: impl Fn(&Action) -> Outcome,
) -> (Vec<String>, Result<(), String>) {
    let mut performed = Vec::new();
    loop {
        let result = {
            let action = transfer.action();
            performed.push(describe(action));
            outcome(action)
        };
        match transfer.report(&result) {
            Progress::Continue => {}
            Progress::Finished(end) => return (performed, end),
        }
    }
}

fn fine(action: &Action) -> Outcome {
    match action {
        Action::Docker { command: Command::Login { .. } } => Outcome::Done,
        Action::Docker { .. } => Outcome::exited(true, b""),
        _ => Outcome::Done,
    }
}

fn whole_script() -> Vec<String> {
    vec![
        "announce 🔄 Migrating: team/app:1.0".to_string(),
        "docker login harbor-a.example.com -u robot$migration --password-stdin < source-password"
            .to_string(),
        format!("docker pull {}", SOURCE),
        format!("docker tag {} {}", SOURCE, TARGET),
        "docker login harbor-b.example.com -u admin --password-stdin < dest-password".to_string(),
        format!("docker push {}", TARGET),
        format!("docker rmi {} {}", SOURCE, TARGET),
        format!("mark {}", REF),
        "save".to_string(),
        "conclude ✓ Completed: team/app:1.0".to_string(),
    ]
}

#[test]
fn a_transfer_that_goes_well() {
    let (performed, end) = run(migrator(false).migrate_image(&image()), fine);
    assert_eq!(performed, whole_script());
    assert_eq!(end, Ok(()));
}

#[test]
fn a_dry_run_only_tells() {
    let (performed, end) = run(migrator(true).migrate_image(&image()), fine);
    assert_eq!(
        performed,
        [
            "announce 🔄 Migrating: team/app:1.0",
            "conclude ✓ [DRY RUN] Would migrate: team/app:1.0",
        ]
    );
    assert_eq!(end, Ok(()));
}

#[test]
fn a_completed_image_is_skipped() {
    for dry_run in [false, true] {
        let mut migrator = migrator(dry_run);
        migrator.mark_completed(REF);
        let (performed, end) = run(migrator.migrate_image(&image()), fine);
        assert_eq!(
            performed,
            [format!("conclude ⏭️  Skipped (already completed): {}", REF)]
        );
        assert_eq!(end, Ok(()));
    }
}

#[test]
fn a_failed_pull_ends_the_transfer() {
    let (performed, end) = run(migrator(false).migrate_image(&image()), |action| match action {
        Action::Docker { command: Command::Pull { .. } } => Outcome::exited(false, b"no such image"),
        other => fine(other),
    });
    assert_eq!(performed.as_slice(), &whole_script()[..3]);
    assert_eq!(end, Err("Failed to pull image: no such image".to_string()));
}

#[test]
fn a_failed_push_ends_the_transfer() {
    let (performed, end) = run(migrator(false).migrate_image(&image()), |action| match action {
        Action::Docker { command: Command::Push { .. } } => Outcome::exited(false, b"denied"),
        other => fine(other),
    });
    assert_eq!(performed.as_slice(), &whole_script()[..6]);
    assert_eq!(end, Err("Failed to push image: denied".to_string()));
}

#[test]
fn how_tag_and_remove_exit_does_not_matter() {
    let (performed, end) = run(migrator(false).migrate_image(&image()), |action| match action {
        Action::Docker { command: Command::Tag { .. } } => Outcome::exited(false, b"bad"),
        Action::Docker { command: Command::Remove { .. } } => Outcome::exited(false, b"bad"),
        other => fine(other),
    });
    assert_eq!(performed, whole_script());
    assert_eq!(end, Ok(()));
}

#[test]
fn a_command_that_cannot_be_run_ends_the_transfer() {
    for n in 1..7 {
        let script = whole_script();
        let failing = script[n].clone();
        let (performed, end) = run(migrator(false).migrate_image(&image()), |action| {
            if describe(action) == failing {
                Outcome::Error { message: "No such file or directory (os error 2)".to_string() }
            } else {
                fine(action)
            }
        });
        assert_eq!(performed.as_slice(), &script[..n + 1]);
        assert_eq!(end, Err("No such file or directory (os error 2)".to_string()));
    }
}

#[test]
fn a_state_that_cannot_be_saved_ends_the_transfer() {
    let (performed, end) = run(migrator(false).migrate_image(&image()), |action| match action {
        Action::SaveState => Outcome::Error { message: "disk full".to_string() },
        other => fine(other),
    });
    assert_eq!(performed.as_slice(), &whole_script()[..9]);
    assert_eq!(end, Err("disk full".to_string()));
}

#[test]
fn what_a_command_says_need_not_be_utf_8() {
    match Outcome::exited(false, b"a\xffb") {
        Outcome::Exited { success, stderr } => {
            assert!(!success);
            assert_eq!(stderr, "a\u{fffd}b");
        }
        other => panic!("unexpected: {:?}", other),
    }
    match Outcome::exited(true, "grün".as_bytes()) {
        Outcome::Exited { success, stderr } => {
            assert!(success);
            assert_eq!(stderr, "grün");
        }
        other => panic!("unexpected: {:?}", other),
    }
}

#[test]
fn the_password_is_not_on_the_command_line() {
    let login = |password: &str| Command::Login {
        registry: "h".to_string(),
        username: "u".to_string(),
        password: password.to_string(),
    };
    assert_eq!(login("secret").args(), login("other").args());
    assert_eq!(login("secret").args(), ["login", "h", "-u", "u", "--password-stdin"]);
}
