//! The transfer of one image: which docker commands are run, what is shown
//! and recorded in between, and where it stops when something goes wrong.
//!
//! What a transfer does is settled before it starts: it is a script of
//! actions. The caller performs one action after the other and reports how
//! each went; the first failure ends the transfer.

use vstd::prelude::*;
use vstd::utf8::{encode_utf8, valid_utf8};

use crate::config::{HarborConfig, HarborConfigView};
use crate::image::{
    host_of, law_names_at_a_registry_differ, registry_host, ImageRef, ImageView,
};
use crate::state::{MigrationState, StateView};
use crate::text;

verus! {

/// A docker command as contracts speak of it.
pub enum CommandView {
    Login { registry: Seq<char>, username: Seq<char>, password: Seq<char> },
    Pull { image: Seq<char> },
    Tag { source: Seq<char>, target: Seq<char> },
    Push { image: Seq<char> },
    Remove { source: Seq<char>, target: Seq<char> },
}

impl CommandView {
    /// What follows `docker` on the command line. A password is never on it.
    pub open spec fn args(self) -> Seq<Seq<char>> {
        match self {
            CommandView::Login { registry, username, .. } => seq![
                "login"@,
                registry,
                "-u"@,
                username,
                "--password-stdin"@,
            ],
            CommandView::Pull { image } => seq!["pull"@, image],
            CommandView::Tag { source, target } => seq!["tag"@, source, target],
            CommandView::Push { image } => seq!["push"@, image],
            CommandView::Remove { source, target } => seq!["rmi"@, source, target],
        }
    }

    /// How an unsuccessful exit of the command is reported. The other
    /// commands may exit as they like.
    pub open spec fn complaint(self) -> Option<Seq<char>> {
        match self {
            CommandView::Pull { .. } => Some("Failed to pull image: "@),
            CommandView::Push { .. } => Some("Failed to push image: "@),
            _ => None,
        }
    }
}

/// An action as contracts speak of it.
pub enum ActionView {
    Announce { message: Seq<char> },
    Docker { command: CommandView },
    MarkCompleted { image_ref: Seq<char> },
    SaveState,
    Conclude { message: Seq<char> },
}

/// How an action went, as contracts speak of it.
pub enum OutcomeView {
    Done,
    Exited { success: bool, stderr: Seq<char> },
    Error { message: Seq<char> },
}

/// A docker command.
#[derive(Debug)]
pub enum Command {
    /// Signs in to a registry. The password goes to the standard input, and
    /// the command is left to itself.
    Login { registry: String, username: String, password: String },
    /// Fetches an image.
    Pull { image: String },
    /// Gives an image a second name.
    Tag { source: String, target: String },
    /// Uploads an image.
    Push { image: String },
    /// Removes both names of an image.
    Remove { source: String, target: String },
}

impl View for Command {
    type V = CommandView;

    open spec fn view(&self) -> CommandView {
        match self {
            Command::Login { registry, username, password } => CommandView::Login {
                registry: registry@,
                username: username@,
                password: password@,
            },
            Command::Pull { image } => CommandView::Pull { image: image@ },
            Command::Tag { source, target } => CommandView::Tag {
                source: source@,
                target: target@,
            },
            Command::Push { image } => CommandView::Push { image: image@ },
            Command::Remove { source, target } => CommandView::Remove {
                source: source@,
                target: target@,
            },
        }
    }
}

impl Command {
    /// What follows `docker` on the command line.
    pub fn args(&self) -> (r: Vec<String>)
        ensures
            text::texts(r@) == self@.args(),
    {
        let mut r: Vec<String> = Vec::new();
        match self {
            Command::Login { registry, username, .. } => {
                r.push(text::owned("login"));
                r.push(registry.clone());
                r.push(text::owned("-u"));
                r.push(username.clone());
                r.push(text::owned("--password-stdin"));
            },
            Command::Pull { image } => {
                r.push(text::owned("pull"));
                r.push(image.clone());
            },
            Command::Tag { source, target } => {
                r.push(text::owned("tag"));
                r.push(source.clone());
                r.push(target.clone());
            },
            Command::Push { image } => {
                r.push(text::owned("push"));
                r.push(image.clone());
            },
            Command::Remove { source, target } => {
                r.push(text::owned("rmi"));
                r.push(source.clone());
                r.push(target.clone());
            },
        }
        assert(text::texts(r@) =~= self@.args());
        r
    }

    /// How an unsuccessful exit of the command is reported, where it matters.
    fn complaint(&self) -> (r: Option<String>)
        ensures
            match r {
                Some(text) => self@.complaint() == Some(text@),
                None => self@.complaint() is None,
            },
    {
        match self {
            Command::Pull { .. } => Some(text::owned("Failed to pull image: ")),
            Command::Push { .. } => Some(text::owned("Failed to push image: ")),
            _ => None,
        }
    }
}

/// One thing that the caller does for a transfer.
#[derive(Debug)]
pub enum Action {
    /// Shows what is going on.
    Announce { message: String },
    /// Runs a docker command.
    Docker { command: Command },
    /// Marks the image as completed in the state.
    MarkCompleted { image_ref: String },
    /// Saves the state.
    SaveState,
    /// Shows how the transfer ended and counts it as dealt with.
    Conclude { message: String },
}

impl View for Action {
    type V = ActionView;

    open spec fn view(&self) -> ActionView {
        match self {
            Action::Announce { message } => ActionView::Announce { message: message@ },
            Action::Docker { command } => ActionView::Docker { command: command@ },
            Action::MarkCompleted { image_ref } => ActionView::MarkCompleted {
                image_ref: image_ref@,
            },
            Action::SaveState => ActionView::SaveState,
            Action::Conclude { message } => ActionView::Conclude { message: message@ },
        }
    }
}

/// How an action went.
#[derive(Debug)]
pub enum Outcome {
    /// It is done.
    Done,
    /// The command ran and exited; `stderr` is what it had to say.
    Exited { success: bool, stderr: String },
    /// It could not be done.
    Error { message: String },
}

impl View for Outcome {
    type V = OutcomeView;

    open spec fn view(&self) -> OutcomeView {
        match self {
            Outcome::Done => OutcomeView::Done,
            Outcome::Exited { success, stderr } => OutcomeView::Exited {
                success: *success,
                stderr: stderr@,
            },
            Outcome::Error { message } => OutcomeView::Error { message: message@ },
        }
    }
}

/// The text that `String::from_utf8_lossy` makes of bytes.
pub uninterp spec fn utf8_lossy(bytes: Seq<u8>) -> Seq<char>;

/// The text of `bytes`, from `String::from_utf8_lossy`. Bytes that are UTF-8
/// are the encoding of the text. What stands for a part that is not UTF-8, and
/// how long such a part is taken to be, is left to that function.
#[verifier::external_body]
fn lossy_text(bytes: &[u8]) -> (r: String)
    ensures
        r@ == utf8_lossy(bytes@),
        valid_utf8(bytes@) ==> encode_utf8(r@) == bytes@,
{
    String::from_utf8_lossy(bytes).into_owned()
}

impl Outcome {
    /// A command that ran and exited, with what it wrote to its standard
    /// error.
    pub fn exited(success: bool, stderr: &[u8]) -> (r: Outcome)
        ensures
            r@ == (OutcomeView::Exited { success, stderr: utf8_lossy(stderr@) }),
            valid_utf8(stderr@) ==> encode_utf8(utf8_lossy(stderr@)) == stderr@,
    {
        Outcome::Exited { success, stderr: lossy_text(stderr) }
    }
}

/// What the caller does next.
#[derive(Debug)]
pub enum Progress {
    /// Perform the next action.
    Continue,
    /// The transfer is over.
    Finished(Result<(), String>),
}

/// What comes next, as contracts speak of it: the next action, or the end with
/// its error, if there is one.
pub enum ProgressView {
    Continue,
    Finished { error: Option<Seq<char>> },
}

impl View for Progress {
    type V = ProgressView;

    open spec fn view(&self) -> ProgressView {
        match self {
            Progress::Continue => ProgressView::Continue,
            Progress::Finished(Ok(_)) => ProgressView::Finished { error: None },
            Progress::Finished(Err(error)) => ProgressView::Finished { error: Some(error@) },
        }
    }
}

/// Where a transfer goes, as contracts speak of it.
pub struct RouteView {
    pub source: HarborConfigView,
    pub destination: HarborConfigView,
    pub dry_run: bool,
}

impl RouteView {
    /// The image where it is fetched from.
    pub open spec fn source_image(self, image: ImageView) -> Seq<char> {
        image.at(self.source.url, image.project.source)
    }

    /// The image where it is uploaded to.
    pub open spec fn dest_image(self, image: ImageView) -> Seq<char> {
        image.at(self.destination.url, image.project.destination)
    }

    /// The docker commands of a transfer.
    pub open spec fn commands(self, image: ImageView) -> Seq<CommandView> {
        let source_image = self.source_image(image);
        let dest_image = self.dest_image(image);
        seq![
            login_view(self.source),
            CommandView::Pull { image: source_image },
            CommandView::Tag { source: source_image, target: dest_image },
            login_view(self.destination),
            CommandView::Push { image: dest_image },
            CommandView::Remove { source: source_image, target: dest_image },
        ]
    }

    /// What a transfer of `image` does, `completed` being the images that are
    /// done already.
    pub open spec fn script(self, image: ImageView, completed: Set<Seq<char>>) -> Seq<ActionView> {
        let migrating = ActionView::Announce { message: "🔄 Migrating: "@ + image.label() };
        if completed.contains(image.image_ref()) {
            seq![
                ActionView::Conclude {
                    message: "⏭️  Skipped (already completed): "@ + image.image_ref(),
                },
            ]
        } else if self.dry_run {
            seq![
                migrating,
                ActionView::Conclude { message: "✓ [DRY RUN] Would migrate: "@ + image.label() },
            ]
        } else {
            seq![migrating] + self.commands(image).map_values(
                |command: CommandView| ActionView::Docker { command },
            ) + seq![
                ActionView::MarkCompleted { image_ref: image.image_ref() },
                ActionView::SaveState,
                ActionView::Conclude { message: "✓ Completed: "@ + image.label() },
            ]
        }
    }
}

/// The command that signs in to a registry.
pub open spec fn login_view(config: HarborConfigView) -> CommandView {
    CommandView::Login {
        registry: registry_host(config.url),
        username: config.username,
        password: config.password,
    }
}

/// The error that `outcome` means for `action`, where it means one.
pub open spec fn failure(action: ActionView, outcome: OutcomeView) -> Option<Seq<char>> {
    match outcome {
        OutcomeView::Done => None,
        OutcomeView::Error { message } => Some(message),
        OutcomeView::Exited { success, stderr } => match action {
            ActionView::Docker { command } => match command.complaint() {
                Some(complaint) if !success => Some(complaint + stderr),
                _ => None,
            },
            _ => None,
        },
    }
}

/// What comes after the action at `position` of a script, which went as
/// `outcome` says: the first failure and the last action end the transfer.
pub open spec fn progress(
    script: Seq<ActionView>,
    position: nat,
    outcome: OutcomeView,
) -> ProgressView {
    match failure(script[position as int], outcome) {
        Some(error) => ProgressView::Finished { error: Some(error) },
        None => if position + 1 < script.len() {
            ProgressView::Continue
        } else {
            ProgressView::Finished { error: None }
        },
    }
}

/// The command that signs in to a registry.
fn login(config: &HarborConfig) -> (r: Command)
    ensures
        r@ == login_view(config@),
{
    Command::Login {
        registry: host_of(config.url.as_str()),
        username: config.username.clone(),
        password: config.password.clone(),
    }
}

/// `prefix` followed by `rest`.
fn message(prefix: &str, rest: &str) -> (r: String)
    ensures
        r@ == prefix@ + rest@,
{
    let mut r = text::owned(prefix);
    r.append(rest);
    r
}

/// The actions of a list, as contracts speak of them.
pub open spec fn action_views(actions: Seq<Action>) -> Seq<ActionView> {
    actions.map_values(|a: Action| a@)
}

/// The transfer of one image: its script and how far it has come.
pub struct Transfer {
    script: Vec<Action>,
    position: usize,
}

impl Transfer {
    /// What the transfer does, from its beginning to its end.
    pub closed spec fn script(self) -> Seq<ActionView> {
        action_views(self.script@)
    }

    /// The place in the script of the action to perform now; its end once the
    /// transfer is over.
    pub closed spec fn position(self) -> nat {
        self.position as nat
    }

    /// Whether an action is still to be performed.
    pub open spec fn is_running(self) -> bool {
        self.position() < self.script().len()
    }

    /// The transfer of `image` from one registry to the other, before its
    /// first action.
    pub fn new(
        source: &HarborConfig,
        destination: &HarborConfig,
        dry_run: bool,
        image: &ImageRef,
        state: &MigrationState,
    ) -> (r: Transfer)
        ensures
            r.is_running(),
            r.position() == 0,
            r.script() == (RouteView {
                source: source@,
                destination: destination@,
                dry_run,
            }).script(image@, state@.completed),
    {
        let ghost route = RouteView { source: source@, destination: destination@, dry_run };
        let image_ref = image.to_string();
        let mut script: Vec<Action> = Vec::new();
        if state.is_completed(image_ref.as_str()) {
            script.push(
                Action::Conclude {
                    message: message("⏭️  Skipped (already completed): ", image_ref.as_str()),
                },
            );
            assert(action_views(script@) =~= route.script(image@, state@.completed));
            return Transfer { script, position: 0 };
        }
        let label = image.label();
        script.push(Action::Announce { message: message("🔄 Migrating: ", label.as_str()) });
        if dry_run {
            script.push(
                Action::Conclude { message: message("✓ [DRY RUN] Would migrate: ", label.as_str()) },
            );
            assert(action_views(script@) =~= route.script(image@, state@.completed));
            return Transfer { script, position: 0 };
        }
        let source_image = image.at(source.url.as_str(), image.project.source.as_str());
        let dest_image = image.at(destination.url.as_str(), image.project.destination.as_str());
        script.push(Action::Docker { command: login(source) });
        script.push(Action::Docker { command: Command::Pull { image: source_image.clone() } });
        script.push(
            Action::Docker {
                command: Command::Tag { source: source_image.clone(), target: dest_image.clone() },
            },
        );
        script.push(Action::Docker { command: login(destination) });
        script.push(Action::Docker { command: Command::Push { image: dest_image.clone() } });
        script.push(
            Action::Docker { command: Command::Remove { source: source_image, target: dest_image } },
        );
        script.push(Action::MarkCompleted { image_ref });
        script.push(Action::SaveState);
        script.push(Action::Conclude { message: message("✓ Completed: ", label.as_str()) });
        assert(action_views(script@) =~= route.script(image@, state@.completed));
        Transfer { script, position: 0 }
    }

    /// The action to perform now.
    pub fn action(&self) -> (r: &Action)
        requires
            self.is_running(),
        ensures
            r@ == self.script()[self.position() as int],
    {
        &self.script[self.position]
    }

    /// Takes note of how the current action went.
    pub fn report(&mut self, outcome: &Outcome) -> (r: Progress)
        requires
            old(self).is_running(),
        ensures
            final(self).script() == old(self).script(),
            r@ == progress(old(self).script(), old(self).position(), outcome@),
            final(self).position() == if r@ is Continue {
                old(self).position() + 1
            } else {
                old(self).script().len()
            },
    {
        let end: usize = self.script.len();
        let action = &self.script[self.position];
        let error: Option<String> = match outcome {
            Outcome::Done => None,
            Outcome::Error { message } => Some(message.clone()),
            Outcome::Exited { success, stderr } => match action {
                Action::Docker { command } => match command.complaint() {
                    Some(complaint) => if *success {
                        None
                    } else {
                        Some(message(complaint.as_str(), stderr.as_str()))
                    },
                    None => None,
                },
                _ => None,
            },
        };
        match error {
            Some(error) => {
                self.position = end;
                Progress::Finished(Err(error))
            },
            None => {
                self.position = self.position + 1;
                if self.position < end {
                    Progress::Continue
                } else {
                    Progress::Finished(Ok(()))
                }
            },
        }
    }
}

/// Whether an action only tells about the transfer.
pub open spec fn only_tells(action: ActionView) -> bool {
    action is Announce || action is Conclude
}

/// Whether a transfer that goes as `outcomes` say comes to its action `k`.
pub open spec fn reaches(script: Seq<ActionView>, outcomes: Seq<OutcomeView>, k: int) -> bool {
    &&& 0 <= k < script.len()
    &&& k <= outcomes.len()
    &&& forall|i: int| 0 <= i < k ==> failure(#[trigger] script[i], outcomes[i]) is None
}

/// Whether an outcome is neither an error nor an unsuccessful exit.
pub open spec fn went_well(outcome: OutcomeView) -> bool {
    match outcome {
        OutcomeView::Done => true,
        OutcomeView::Exited { success, .. } => success,
        OutcomeView::Error { .. } => false,
    }
}

/// An image that is done already is not touched again: no command is run, and
/// nothing is recorded or saved.
pub proof fn law_completed_image_is_left_alone(
    route: RouteView,
    image: ImageView,
    completed: Set<Seq<char>>,
    i: int,
)
    requires
        completed.contains(image.image_ref()),
        0 <= i < route.script(image, completed).len(),
    ensures
        only_tells(route.script(image, completed)[i]),
{
}

/// A dry run changes nothing: no command is run, and nothing is recorded or
/// saved.
pub proof fn law_dry_run_only_tells(
    route: RouteView,
    image: ImageView,
    completed: Set<Seq<char>>,
    i: int,
)
    requires
        route.dry_run,
        0 <= i < route.script(image, completed).len(),
    ensures
        only_tells(route.script(image, completed)[i]),
{
}

/// An image is marked as completed only when it has been fetched from the
/// source and then uploaded to the destination, and both went well.
pub proof fn law_completed_only_after_push(
    route: RouteView,
    image: ImageView,
    completed: Set<Seq<char>>,
    outcomes: Seq<OutcomeView>,
    k: int,
)
    requires
        reaches(route.script(image, completed), outcomes, k),
        route.script(image, completed)[k] is MarkCompleted,
    ensures
        ({
            let script = route.script(image, completed);
            &&& script[k] == ActionView::MarkCompleted { image_ref: image.image_ref() }
            &&& exists|p: int, q: int|
                #![trigger script[p], script[q]]
                {
                    &&& 0 <= p < q < k
                    &&& script[p] == ActionView::Docker {
                        command: CommandView::Pull { image: route.source_image(image) },
                    }
                    &&& went_well(outcomes[p])
                    &&& script[q] == ActionView::Docker {
                        command: CommandView::Push { image: route.dest_image(image) },
                    }
                    &&& went_well(outcomes[q])
                }
        }),
{
    let script = route.script(image, completed);
    assert(k == 7);
    let pull = script[2];
    let push = script[5];
    assert(failure(script[2], outcomes[2]) is None);
    assert(failure(script[5], outcomes[5]) is None);
    assert(pull == ActionView::Docker {
        command: CommandView::Pull { image: route.source_image(image) },
    });
    assert(push == ActionView::Docker {
        command: CommandView::Push { image: route.dest_image(image) },
    });
}

/// The state is saved only after the image has been marked as completed.
pub proof fn law_saved_only_after_completion(
    route: RouteView,
    image: ImageView,
    completed: Set<Seq<char>>,
    k: int,
)
    requires
        0 <= k < route.script(image, completed).len(),
        route.script(image, completed)[k] is SaveState,
    ensures
        k > 0,
        route.script(image, completed)[k - 1] == (ActionView::MarkCompleted {
            image_ref: image.image_ref(),
        }),
{
    assert(k == 8);
}

/// The images that are completed after the first `k` actions of a script.
pub open spec fn completed_after(
    completed: Set<Seq<char>>,
    script: Seq<ActionView>,
    k: nat,
) -> Set<Seq<char>>
    decreases k,
{
    if k == 0 {
        completed
    } else {
        let before = completed_after(completed, script, (k - 1) as nat);
        match script[k - 1] {
            ActionView::MarkCompleted { image_ref } => before.insert(image_ref),
            _ => before,
        }
    }
}

/// However far a transfer comes, no image but its own is completed by it, and
/// none at all before it marks its own.
pub proof fn law_transfer_completes_no_other_image(
    route: RouteView,
    image: ImageView,
    completed: Set<Seq<char>>,
    k: nat,
)
    requires
        k <= route.script(image, completed).len(),
    ensures
        ({
            let script = route.script(image, completed);
            let mark = ActionView::MarkCompleted { image_ref: image.image_ref() };
            completed_after(completed, script, k) == if script.take(k as int).contains(mark) {
                completed.insert(image.image_ref())
            } else {
                completed
            }
        }),
    decreases k,
{
    let script = route.script(image, completed);
    let mark = ActionView::MarkCompleted { image_ref: image.image_ref() };
    if k > 0 {
        let j: int = k - 1;
        law_transfer_completes_no_other_image(route, image, completed, (k - 1) as nat);
        assert(script.take(k as int) =~= script.take(j).push(script[j]));
        assert(script.take(k as int).contains(mark) <==> script.take(j).contains(mark) || script[j]
            == mark) by {
            if script.take(j).contains(mark) {
                let i = choose|i: int| 0 <= i < j && script.take(j)[i] == mark;
                assert(script.take(k as int)[i] == mark);
            }
            if script[j] == mark {
                assert(script.take(k as int)[j] == mark);
            }
            if script.take(k as int).contains(mark) && script[j] != mark {
                let i = choose|i: int| 0 <= i < k && script.take(k as int)[i] == mark;
                assert(script.take(j)[i] == mark);
            }
        }
        assert(script[j] is MarkCompleted ==> script[j] == mark);
        assert(completed.insert(image.image_ref()).insert(image.image_ref()) =~= completed.insert(
            image.image_ref(),
        ));
    } else {
        assert(!script.take(0).contains(mark));
    }
}

/// A transfer that meets no failure leaves its image completed, unless it is a
/// dry run, which completes nothing.
pub proof fn law_whole_transfer_completes_its_image(
    route: RouteView,
    image: ImageView,
    completed: Set<Seq<char>>,
)
    ensures
        ({
            let script = route.script(image, completed);
            completed_after(completed, script, script.len()) == if route.dry_run {
                completed
            } else {
                completed.insert(image.image_ref())
            }
        }),
{
    let script = route.script(image, completed);
    law_transfer_completes_no_other_image(route, image, completed, script.len());
    assert(script.take(script.len() as int) =~= script);
    if completed.contains(image.image_ref()) {
        assert(completed.insert(image.image_ref()) =~= completed);
    } else if !route.dry_run {
        assert(script[7] == ActionView::MarkCompleted { image_ref: image.image_ref() });
    }
}

/// The command line of a login does not depend on the password.
pub proof fn law_password_is_not_an_argument(
    registry: Seq<char>,
    username: Seq<char>,
    password: Seq<char>,
    other: Seq<char>,
)
    ensures
        (CommandView::Login { registry, username, password }).args() == (CommandView::Login {
            registry,
            username,
            password: other,
        }).args(),
{
}

/// Once an image is marked as completed, the next transfer of it is skipped,
/// whatever else has been recorded since.
pub proof fn law_completed_image_is_skipped(
    route: RouteView,
    image: ImageView,
    state: StateView,
    now: crate::state::Timestamp,
    later: StateView,
)
    requires
        state.completing(image.image_ref(), now).completed.subset_of(later.completed),
    ensures
        route.script(image, later.completed) == seq![
            ActionView::Conclude {
                message: "⏭️  Skipped (already completed): "@ + image.image_ref(),
            },
        ],
{
    assert(state.completing(image.image_ref(), now).completed.contains(image.image_ref()));
}

/// Commands, actions, outcomes and what comes next are seen as they are.
pub proof fn law_transfer_is_seen_as_it_is(
    command: Command,
    action: Action,
    outcome: Outcome,
    next: Progress,
)
    ensures
        match command {
            Command::Login { registry, username, password } => command@ == (CommandView::Login {
                registry: registry@,
                username: username@,
                password: password@,
            }),
            Command::Pull { image } => command@ == (CommandView::Pull { image: image@ }),
            Command::Tag { source, target } => command@ == (CommandView::Tag {
                source: source@,
                target: target@,
            }),
            Command::Push { image } => command@ == (CommandView::Push { image: image@ }),
            Command::Remove { source, target } => command@ == (CommandView::Remove {
                source: source@,
                target: target@,
            }),
        },
        match action {
            Action::Announce { message } => action@ == (ActionView::Announce {
                message: message@,
            }),
            Action::Docker { command } => action@ == (ActionView::Docker { command: command@ }),
            Action::MarkCompleted { image_ref } => action@ == (ActionView::MarkCompleted {
                image_ref: image_ref@,
            }),
            Action::SaveState => action@ is SaveState,
            Action::Conclude { message } => action@ == (ActionView::Conclude {
                message: message@,
            }),
        },
        match outcome {
            Outcome::Done => outcome@ is Done,
            Outcome::Exited { success, stderr } => outcome@ == (OutcomeView::Exited {
                success,
                stderr: stderr@,
            }),
            Outcome::Error { message } => outcome@ == (OutcomeView::Error { message: message@ }),
        },
        match next {
            Progress::Continue => next@ is Continue,
            Progress::Finished(Ok(_)) => next@ == (ProgressView::Finished { error: None }),
            Progress::Finished(Err(error)) => next@ == (ProgressView::Finished {
                error: Some(error@),
            }),
        },
{
}

/// Actions are seen one by one, in their order.
pub proof fn law_each_action_is_seen(actions: Seq<Action>)
    ensures
        action_views(actions).len() == actions.len(),
        forall|i: int|
            0 <= i < actions.len() ==> #[trigger] action_views(actions)[i] == actions[i]@,
{
}

/// What a transfer does, step by step, as docker is told and as the state and
/// the person who watches are told: it signs in where the image is, fetches it
/// by its name there, gives it the name that it is to have in the destination
/// project, signs in where it goes, uploads it by that name, and removes both
/// names. Only then it is completed, and the state is saved.
pub proof fn law_transfer_step_by_step(
    route: RouteView,
    image: ImageView,
    completed: Set<Seq<char>>,
)
    requires
        !completed.contains(image.image_ref()),
        !route.dry_run,
    ensures
        ({
            let script = route.script(image, completed);
            let from = registry_host(route.source.url);
            let to = registry_host(route.destination.url);
            let label = image.repository + ":"@ + image.tag;
            let source = from + "/"@ + image.project.source + "/"@ + label;
            let target = to + "/"@ + image.project.destination + "/"@ + label;
            &&& script.len() == 10
            &&& script[0] == ActionView::Announce { message: "🔄 Migrating: "@ + label }
            &&& forall|k: int| 1 <= k <= 6 ==> (#[trigger] script[k]) is Docker
            &&& script[1]->command.args() == seq![
                "login"@,
                from,
                "-u"@,
                route.source.username,
                "--password-stdin"@,
            ]
            &&& script[1]->command is Login
            &&& script[1]->command->password == route.source.password
            &&& script[2]->command is Pull
            &&& script[2]->command.args() == seq!["pull"@, source]
            &&& script[3]->command.args() == seq!["tag"@, source, target]
            &&& script[4]->command.args() == seq![
                "login"@,
                to,
                "-u"@,
                route.destination.username,
                "--password-stdin"@,
            ]
            &&& script[4]->command is Login
            &&& script[4]->command->password == route.destination.password
            &&& script[5]->command is Push
            &&& script[5]->command.args() == seq!["push"@, target]
            &&& script[6]->command.args() == seq!["rmi"@, source, target]
            &&& script[7] == ActionView::MarkCompleted { image_ref: image.image_ref() }
            &&& script[8] is SaveState
            &&& script[9] == ActionView::Conclude { message: "✓ Completed: "@ + label }
        }),
{
    let script = route.script(image, completed);
    let label = image.repository + ":"@ + image.tag;
    assert(script.len() == 10);
    assert(script[0] == ActionView::Announce { message: "🔄 Migrating: "@ + image.label() });
    assert(route.source_image(image) =~= registry_host(route.source.url) + "/"@
        + image.project.source + "/"@ + label);
    assert(route.dest_image(image) =~= registry_host(route.destination.url) + "/"@
        + image.project.destination + "/"@ + label);
    assert(script[1] == ActionView::Docker { command: login_view(route.source) });
    assert(script[4] == ActionView::Docker { command: login_view(route.destination) });
    assert(script[1]->command.args() =~= seq![
        "login"@,
        registry_host(route.source.url),
        "-u"@,
        route.source.username,
        "--password-stdin"@,
    ]);
    assert(script[4]->command.args() =~= seq![
        "login"@,
        registry_host(route.destination.url),
        "-u"@,
        route.destination.username,
        "--password-stdin"@,
    ]);
}

/// A dry run shows which image it would transfer, and that is all it does with
/// one that is not completed.
pub proof fn law_dry_run_shows_the_image(
    route: RouteView,
    image: ImageView,
    completed: Set<Seq<char>>,
)
    requires
        !completed.contains(image.image_ref()),
        route.dry_run,
    ensures
        ({
            let label = image.repository + ":"@ + image.tag;
            route.script(image, completed) == seq![
                ActionView::Announce { message: "🔄 Migrating: "@ + label },
                ActionView::Conclude { message: "✓ [DRY RUN] Would migrate: "@ + label },
            ]
        }),
{
}

/// The command line of each command, word by word.
pub proof fn law_command_lines(
    registry: Seq<char>,
    username: Seq<char>,
    password: Seq<char>,
    image: Seq<char>,
    target: Seq<char>,
)
    ensures
        (CommandView::Login { registry, username, password }).args() == seq![
            "login"@,
            registry,
            "-u"@,
            username,
            "--password-stdin"@,
        ],
        (CommandView::Pull { image }).args() == seq!["pull"@, image],
        (CommandView::Tag { source: image, target }).args() == seq!["tag"@, image, target],
        (CommandView::Push { image }).args() == seq!["push"@, image],
        (CommandView::Remove { source: image, target }).args() == seq!["rmi"@, image, target],
{
}

/// Under one route an image is uploaded where only images with its destination
/// project, its repository and its tag are, projects having no slash and tags
/// no colon. Likewise it is fetched from where only images with its source
/// project, its repository and its tag are.
pub proof fn law_images_are_not_mixed_up(
    route: RouteView,
    a: ImageView,
    b: ImageView,
    completed: Set<Seq<char>>,
)
    requires
        !route.dry_run,
        !completed.contains(a.image_ref()),
        !completed.contains(b.image_ref()),
        !a.project.source.contains('/'),
        !b.project.source.contains('/'),
        !a.project.destination.contains('/'),
        !b.project.destination.contains('/'),
        !a.tag.contains(':'),
        !b.tag.contains(':'),
    ensures
        route.script(a, completed)[5] == route.script(b, completed)[5] <==> {
            &&& a.project.destination == b.project.destination
            &&& a.repository == b.repository
            &&& a.tag == b.tag
        },
        route.script(a, completed)[2] == route.script(b, completed)[2] <==> {
            &&& a.project.source == b.project.source
            &&& a.repository == b.repository
            &&& a.tag == b.tag
        },
{
    let (s, t) = (route.script(a, completed), route.script(b, completed));
    assert(s[5] == ActionView::Docker {
        command: CommandView::Push { image: route.dest_image(a) },
    });
    assert(t[5] == ActionView::Docker {
        command: CommandView::Push { image: route.dest_image(b) },
    });
    assert(s[2] == ActionView::Docker {
        command: CommandView::Pull { image: route.source_image(a) },
    });
    assert(t[2] == ActionView::Docker {
        command: CommandView::Pull { image: route.source_image(b) },
    });
    if route.dest_image(a) == route.dest_image(b) {
        law_names_at_a_registry_differ(
            route.destination.url,
            a,
            a.project.destination,
            b,
            b.project.destination,
        );
    }
    if route.source_image(a) == route.source_image(b) {
        law_names_at_a_registry_differ(
            route.source.url,
            a,
            a.project.source,
            b,
            b.project.source,
        );
    }
}

/// What counts as a failure, and how it is reported. What could not be done at
/// all is one, with its own message. Of the commands that ran, only a fetch or
/// an upload that exits without success is one, with what it had to say.
pub proof fn law_what_counts_as_a_failure(
    action: ActionView,
    image: Seq<char>,
    stderr: Seq<char>,
    message: Seq<char>,
)
    ensures
        failure(action, OutcomeView::Error { message }) == Some(message),
        failure(action, OutcomeView::Done) is None,
        failure(action, OutcomeView::Exited { success: true, stderr }) is None,
        failure(
            ActionView::Docker { command: CommandView::Pull { image } },
            OutcomeView::Exited { success: false, stderr },
        ) == Some("Failed to pull image: "@ + stderr),
        failure(
            ActionView::Docker { command: CommandView::Push { image } },
            OutcomeView::Exited { success: false, stderr },
        ) == Some("Failed to push image: "@ + stderr),
        !(action is Docker && (action->command is Pull || action->command is Push)) ==> failure(
            action,
            OutcomeView::Exited { success: false, stderr },
        ) is None,
{
}

/// A transfer ends with the first failure, and with the last action if there
/// was none; otherwise it goes on.
pub proof fn law_first_failure_ends_the_transfer(
    script: Seq<ActionView>,
    position: nat,
    outcome: OutcomeView,
    error: Seq<char>,
)
    requires
        position < script.len(),
    ensures
        ({
            let error_now = failure(script[position as int], outcome);
            let next = progress(script, position, outcome);
            &&& next is Continue <==> error_now is None && position != script.len() - 1
            &&& next == (ProgressView::Finished { error: Some(error) }) <==> error_now == Some(
                error,
            )
            &&& next == (ProgressView::Finished { error: None }) <==> error_now is None && position
                == script.len() - 1
        }),
{
}

/// What only tells, and what goes well, by case.
pub proof fn law_telling_and_going_well(action: ActionView, outcome: OutcomeView)
    ensures
        only_tells(action) <==> !(action is Docker || action is MarkCompleted || action
            is SaveState),
        went_well(outcome) <==> !(outcome is Error) && (outcome matches OutcomeView::Exited {
            success,
            ..
        } ==> success),
{
}

} // verus!
