//! The rail beside every page: the state of the machine, and the things worth one click.
use vstd::prelude::*;
use crate::checks::{
    all, check_models, checklist, overall, score, score_of, verdict, CheckModel, State, System,
};
use crate::collections::NameSet;
use crate::games::{known_launchers, launchers};
use crate::install::terminals;
use crate::lists::{first_where, lemma_first_is, lemma_first_none};
use crate::number::{decimal, decimal_of};
use crate::telemetry::{memory, memory_text, GpuReading, Usage};
use crate::text::{cat2, cat3, cat4, single};
use crate::tune::{bytes_text, human_bytes};

verus! {

// ---------------------------------------------------------------------------
// The state of the machine
// ---------------------------------------------------------------------------

/// What the status card says.
#[derive(Debug, PartialEq, Eq)]
pub struct StatusCard {
    pub icon: &'static str,
    pub class: &'static str,
    pub summary: String,
}

/// What the status card says.
#[verifier::ext_equal]
pub struct StatusModel {
    pub icon: Seq<char>,
    pub class: Seq<char>,
    pub summary: Seq<char>,
}

impl DeepView for StatusCard {
    type V = StatusModel;

    open spec fn deep_view(&self) -> StatusModel {
        StatusModel { icon: self.icon@, class: self.class@, summary: self.summary@ }
    }
}

/// What the status card says of checks.
pub open spec fn status_of(checks: Seq<CheckModel>) -> StatusModel {
    let (good, total) = score_of(checks);
    if overall(checks) == State::Problem {
        StatusModel {
            icon: "dialog-warning-symbolic"@,
            class: "warn"@,
            summary: decimal(good) + " of "@ + decimal(total) + " checks clear"@,
        }
    } else {
        StatusModel {
            icon: "emblem-ok-symbolic"@,
            class: "good"@,
            summary: "All systems ready"@,
        }
    }
}

/// What the status card says.
pub fn status_card(system: &System) -> (r: StatusCard)
    ensures
        r.deep_view() == status_of(checklist(system.deep_view())),
{
    let found = all(system);
    assert(check_models(found@) =~= found.deep_view());
    let (state, _, _) = verdict(&found);
    let (good, total) = score(&found);
    match state {
        State::Problem => StatusCard {
            icon: "dialog-warning-symbolic",
            class: "warn",
            summary: cat4(
                &decimal_of(good as u64),
                " of ",
                &decimal_of(total as u64),
                " checks clear",
            ),
        },
        _ => StatusCard {
            icon: "emblem-ok-symbolic",
            class: "good",
            summary: String::from_str("All systems ready"),
        },
    }
}

/// How full something is, and the figures beside it.
#[derive(Debug, PartialEq, Eq)]
pub struct Meter {
    pub used: u64,
    pub total: u64,
    pub figures: String,
}

/// The meter of a card's own memory; none where it is not known, or the card has none.
pub fn vram_meter(reading: Option<&GpuReading>) -> (r: Option<Meter>)
    ensures
        r is Some <==> reading is Some && reading->0.memory_used_mb is Some
            && reading->0.memory_total_mb is Some && reading->0.memory_total_mb->0 > 0,
        r is Some ==> r->0.used == reading->0.memory_used_mb->0 && r->0.total
            == reading->0.memory_total_mb->0 && r->0.figures@ == memory_text(
            reading->0.memory_used_mb,
            reading->0.memory_total_mb,
        ),
{
    match reading {
        Some(found) => match (found.memory_used_mb, found.memory_total_mb) {
            (Some(used), Some(total)) => if total > 0 {
                Some(Meter { used, total, figures: memory(Some(used), Some(total)) })
            } else {
                None
            },
            _ => None,
        },
        None => None,
    }
}

/// The meter of the storage; none where it is not known.
pub fn storage_meter(storage: Usage) -> (r: Option<Meter>)
    ensures
        r is Some <==> storage.total > 0,
        r is Some ==> r->0.used == storage.used && r->0.total == storage.total && r->0.figures@
            == bytes_text(storage.used) + " / "@ + bytes_text(storage.total),
{
    if storage.is_known() {
        Some(
            Meter {
                used: storage.used,
                total: storage.total,
                figures: cat3(&human_bytes(storage.used), " / ", &human_bytes(storage.total)),
            },
        )
    } else {
        None
    }
}

// ---------------------------------------------------------------------------
// Quick actions
// ---------------------------------------------------------------------------

/// What a quick action does.
#[derive(Debug, PartialEq, Eq)]
pub enum RailAction {
    /// Starts a program by name.
    Run(&'static str),
    /// Hands a path to the file manager.
    Open(String),
    Terminal,
}

/// What a quick action does.
#[verifier::ext_equal]
pub enum RailActionModel {
    Run(Seq<char>),
    Open(Seq<char>),
    Terminal,
}

impl DeepView for RailAction {
    type V = RailActionModel;

    open spec fn deep_view(&self) -> RailActionModel {
        match self {
            RailAction::Run(command) => RailActionModel::Run(command@),
            RailAction::Open(path) => RailActionModel::Open(path@),
            RailAction::Terminal => RailActionModel::Terminal,
        }
    }
}

/// A quick action.
#[derive(Debug, PartialEq, Eq)]
pub struct RailRow {
    pub label: &'static str,
    pub icon: &'static str,
    pub action: RailAction,
}

/// A quick action.
#[verifier::ext_equal]
pub struct RailRowModel {
    pub label: Seq<char>,
    pub icon: Seq<char>,
    pub action: RailActionModel,
}

impl DeepView for RailRow {
    type V = RailRowModel;

    open spec fn deep_view(&self) -> RailRowModel {
        RailRowModel {
            label: self.label@,
            icon: self.icon@,
            action: self.action.deep_view(),
        }
    }
}

/// The names of the terminals that are tried.
pub open spec fn terminal_names() -> Seq<Seq<char>> {
    seq!["raven-terminal"@, "foot"@, "alacritty"@, "kitty"@, "xterm"@]
}

/// Some terminal is installed.
pub open spec fn has_terminal(commands: Set<Seq<char>>) -> bool {
    exists|i: int| 0 <= i < terminal_names().len() && commands.contains(#[trigger] terminal_names()[i])
}

/// The quick action of a launcher.
pub open spec fn launcher_row(l: (&'static str, &'static str, &'static str)) -> RailRowModel {
    RailRowModel { label: l.1@, icon: l.2@, action: RailActionModel::Run(l.0@) }
}

/// A list with one thing, or none.
pub open spec fn where_so<A>(so: bool, thing: A) -> Seq<A> {
    if so {
        seq![thing]
    } else {
        Seq::empty()
    }
}

/// The quick actions: only what is installed, or there.
pub open spec fn actions_of(
    commands: Set<Seq<char>>,
    folder: Seq<char>,
    folder_exists: bool,
) -> Seq<RailRowModel> {
    known_launchers().filter(
        |l: (&'static str, &'static str, &'static str)| commands.contains(l.0@),
    ).map_values(|l: (&'static str, &'static str, &'static str)| launcher_row(l)) + where_so(
        folder_exists,
        RailRowModel {
            label: "Open recordings"@,
            icon: "folder-videos-symbolic"@,
            action: RailActionModel::Open(folder),
        },
    ) + where_so(
        commands.contains("raven-settings"@),
        RailRowModel {
            label: "Raven Settings"@,
            icon: "preferences-system-symbolic"@,
            action: RailActionModel::Run("raven-settings"@),
        },
    ) + where_so(
        has_terminal(commands),
        RailRowModel {
            label: "Open a terminal"@,
            icon: "utilities-terminal-symbolic"@,
            action: RailActionModel::Terminal,
        },
    )
}

fn any_terminal(commands: &NameSet) -> (r: bool)
    ensures
        r == has_terminal(commands@),
{
    let names = terminals();
    assert(crate::checks::str_texts(names@) == terminal_names());
    let mut i: usize = 0;
    while i < names.len()
        invariant
            i <= names.len(),
            crate::checks::str_texts(names@) == terminal_names(),
            forall|j: int| 0 <= j < i ==> !commands@.contains(#[trigger] terminal_names()[j]),
        decreases names.len() - i,
    {
        assert(terminal_names()[i as int] == names@[i as int]@);
        if commands.contains(names[i]) {
            return true;
        }
        i = i + 1;
    }
    false
}

fn push_row(rows: &mut Vec<RailRow>, row: RailRow)
    ensures
        final(rows).deep_view() == old(rows).deep_view().push(row.deep_view()),
{
    let ghost before = rows.deep_view();
    let ghost one = row.deep_view();
    rows.push(row);
    assert(rows.deep_view() =~= before.push(one));
}

/// The launchers and folders worth one click, given the commands found, the folder of recordings
/// and whether it is there. A list of things that are not there is no shortcut.
pub fn quick_actions(commands: &NameSet, folder: &str, folder_exists: bool) -> (r: Vec<RailRow>)
    ensures
        r.deep_view() == actions_of(commands@, folder@, folder_exists),
{
    let found = launchers(commands);
    let ghost every = found@;
    let ghost f = |l: (&'static str, &'static str, &'static str)| launcher_row(l);
    let mut rows: Vec<RailRow> = Vec::new();
    let mut i: usize = 0;
    assert(rows.deep_view() =~= every.take(0).map_values(f));
    while i < found.len()
        invariant
            i <= found.len(),
            every == found@,
            f == (|l: (&'static str, &'static str, &'static str)| launcher_row(l)),
            rows.deep_view() == every.take(i as int).map_values(f),
        decreases found.len() - i,
    {
        let ghost before = rows.deep_view();
        let (command, label, icon) = found[i];
        push_row(&mut rows, RailRow { label, icon, action: RailAction::Run(command) });
        i = i + 1;
        assert(rows.deep_view() =~= every.take(i as int).map_values(f));
    }
    assert(every.take(i as int) =~= every);
    if folder_exists {
        push_row(
            &mut rows,
            RailRow {
                label: "Open recordings",
                icon: "folder-videos-symbolic",
                action: RailAction::Open(String::from_str(folder)),
            },
        );
    }
    if commands.contains("raven-settings") {
        push_row(
            &mut rows,
            RailRow {
                label: "Raven Settings",
                icon: "preferences-system-symbolic",
                action: RailAction::Run("raven-settings"),
            },
        );
    }
    if any_terminal(commands) {
        push_row(
            &mut rows,
            RailRow {
                label: "Open a terminal",
                icon: "utilities-terminal-symbolic",
                action: RailAction::Terminal,
            },
        );
    }
    assert(rows.deep_view() =~= actions_of(commands@, folder@, folder_exists));
    rows
}

/// The command that starts a program without arguments, given where it was found.
pub fn run_detached(command: &str, binary: Option<&str>) -> (r: Result<Vec<String>, String>)
    ensures
        match binary {
            Some(path) => r is Ok && r->Ok_0.deep_view() == seq![path@],
            None => r is Err && r->Err_0@ == command@ + " is not installed"@,
        },
{
    match binary {
        Some(path) => Ok(single(path)),
        None => Err(cat2(command, " is not installed")),
    }
}

/// What is said where a program could not be started.
pub fn run_failure(command: &str, error: &str) -> (r: String)
    ensures
        r@ == "Could not start "@ + command@ + ": "@ + error@,
{
    cat4("Could not start ", command, ": ", error)
}

/// Which terminal is opened: the first that is installed.
pub fn open_terminal(commands: &NameSet) -> (r: Result<&'static str, String>)
    ensures
        match first_where(terminal_names(), |t: Seq<char>| commands@.contains(t)) {
            Some(name) => r is Ok && r->Ok_0@ == name,
            None => r is Err && r->Err_0@ == "No terminal emulator is installed"@,
        },
{
    let names = terminals();
    let ghost p = |t: Seq<char>| commands@.contains(t);
    assert(crate::checks::str_texts(names@) == terminal_names());
    let mut i: usize = 0;
    while i < names.len()
        invariant
            i <= names.len(),
            crate::checks::str_texts(names@) == terminal_names(),
            p == (|t: Seq<char>| commands@.contains(t)),
            forall|j: int| 0 <= j < i ==> !p(#[trigger] terminal_names()[j]),
        decreases names.len() - i,
    {
        assert(terminal_names()[i as int] == names@[i as int]@);
        if commands.contains(names[i]) {
            proof {
                lemma_first_is(terminal_names(), p, i as int);
            }
            return Ok(names[i]);
        }
        i = i + 1;
    }
    proof {
        lemma_first_none(terminal_names(), p);
    }
    Err(String::from_str("No terminal emulator is installed"))
}

// ---------------------------------------------------------------------------
// Laws
// ---------------------------------------------------------------------------

/// A terminal is offered exactly where one can be opened.
pub proof fn an_offered_terminal_opens(commands: Set<Seq<char>>)
    ensures
        has_terminal(commands) <==> first_where(
            terminal_names(),
            |t: Seq<char>| commands.contains(t),
        ) is Some,
{
    let p = |t: Seq<char>| commands.contains(t);
    crate::lists::lemma_first_index(terminal_names(), p);
    if has_terminal(commands) {
        let i = choose|i: int|
            0 <= i < terminal_names().len() && commands.contains(#[trigger] terminal_names()[i]);
        assert(p(terminal_names()[i]));
    }
}

/// Nothing that is not installed is offered to be run.
pub proof fn only_what_is_installed_is_offered(
    commands: Set<Seq<char>>,
    folder: Seq<char>,
    folder_exists: bool,
    i: int,
)
    requires
        0 <= i < actions_of(commands, folder, folder_exists).len(),
    ensures
        actions_of(commands, folder, folder_exists)[i].action matches RailActionModel::Run(command)
            ==> commands.contains(command),
{
    let p = |l: (&'static str, &'static str, &'static str)| commands.contains(l.0@);
    let found = known_launchers().filter(p);
    if i < found.len() {
        crate::lists::lemma_filter_members(known_launchers(), p);
        assert(found.contains(found[i]));
    }
}

/// The card warns exactly where some check is a problem, and counts what is clear.
pub proof fn the_card_warns_of_problems(checks: Seq<CheckModel>)
    ensures
        (exists|k: int| 0 <= k < checks.len() && (#[trigger] checks[k]).state == State::Problem)
            ==> status_of(checks).class == "warn"@ && status_of(checks).icon
            == "dialog-warning-symbolic"@ && status_of(checks).summary == decimal(score_of(checks).0)
            + " of "@ + decimal(score_of(checks).1) + " checks clear"@,
        (forall|k: int| 0 <= k < checks.len() ==> (#[trigger] checks[k]).state != State::Problem)
            ==> status_of(checks).class == "good"@ && status_of(checks).icon == "emblem-ok-symbolic"@
            && status_of(checks).summary == "All systems ready"@,
{
}

/// A terminal is offered where any of the five that are known is installed.
pub proof fn any_known_terminal_is_offered(
    commands: Set<Seq<char>>,
    folder: Seq<char>,
    folder_exists: bool,
)
    ensures
        (exists|i: int|
            0 <= i < actions_of(commands, folder, folder_exists).len() && (#[trigger] actions_of(
                commands,
                folder,
                folder_exists,
            )[i]).action is Terminal) <==> commands.contains("raven-terminal"@) || commands.contains(
            "foot"@,
        ) || commands.contains("alacritty"@) || commands.contains("kitty"@) || commands.contains(
            "xterm"@,
        ),
        (exists|i: int|
            0 <= i < actions_of(commands, folder, folder_exists).len() && (#[trigger] actions_of(
                commands,
                folder,
                folder_exists,
            )[i]).action == RailActionModel::Open(folder)) <==> folder_exists,
        commands.contains("raven-settings"@) ==> exists|i: int|
            0 <= i < actions_of(commands, folder, folder_exists).len() && (#[trigger] actions_of(
                commands,
                folder,
                folder_exists,
            )[i]).action == RailActionModel::Run("raven-settings"@),
{
    let names = terminal_names();
    assert(names[0] == "raven-terminal"@ && names[1] == "foot"@ && names[2] == "alacritty"@ && names[3]
        == "kitty"@ && names[4] == "xterm"@);
    let all = actions_of(commands, folder, folder_exists);
    let first = known_launchers().filter(
        |l: (&'static str, &'static str, &'static str)| commands.contains(l.0@),
    ).map_values(|l: (&'static str, &'static str, &'static str)| launcher_row(l));
    assert forall|i: int| 0 <= i < first.len() implies (#[trigger] all[i]).action is Run by {
        assert(all[i] == first[i]);
    }
    let n = first.len() as int;
    let open_len: int = if folder_exists {
        1
    } else {
        0
    };
    let settings_len: int = if commands.contains("raven-settings"@) {
        1
    } else {
        0
    };
    if folder_exists {
        assert(all[n].action == RailActionModel::Open(folder));
    }
    if commands.contains("raven-settings"@) {
        assert(all[n + open_len].action == RailActionModel::Run("raven-settings"@));
    }
    if has_terminal(commands) {
        assert(all[n + open_len + settings_len].action is Terminal);
    }
}

/// The desktop's own terminal is opened where it is installed, and another only where it is not.
pub proof fn the_desktops_own_terminal_comes_first(commands: Set<Seq<char>>)
    requires
        commands.contains("raven-terminal"@),
    ensures
        first_where(terminal_names(), |t: Seq<char>| commands.contains(t)) == Some("raven-terminal"@),
{
    crate::lists::lemma_first_is(terminal_names(), |t: Seq<char>| commands.contains(t), 0);
}

} // verus!
