//! Installing packages, by driving `rvn --json`.
//!
//! rvn is run as a process and its JSON event stream is read. Only the events that a progress
//! dialog can show anything with are kept.
use vstd::prelude::*;
use crate::json::{json_read, member, number_in, read_json, text_in, Json, JsonModel};
use crate::lists::{first_where, lemma_first_is, lemma_first_none};
use crate::path::{is_same_path, is_within, joined_path, leads_through, same_path};
use crate::text::{
    alnum, byte_len, cat2, cat3, chars_of, equal, is_alnum, join, joined, longer_than, string_of,
    trim, trimmed,
};

verus! {

/// rvn's socket to its root daemon: the one that the environment names, or its own.
pub fn daemon_socket(configured: Option<&str>) -> (r: String)
    ensures
        r@ == (match configured {
            Some(path) => path@,
            None => "/run/rvn/ctl"@,
        }),
{
    match configured {
        Some(path) => String::from_str(path),
        None => String::from_str("/run/rvn/ctl"),
    }
}

/// What came of connecting to the daemon's socket.
#[derive(Debug, Clone, Copy, PartialEq, Eq, Structural)]
pub enum Connection {
    Made,
    /// There is no such socket, or nobody listens on it.
    Absent,
    /// It failed in some other way.
    Failed,
}

/// Why an install cannot start right now, if it cannot.
///
/// In `--json` mode rvn does not explain a missing daemon, and fails partway through. Checking first
/// gives the advice the terminal would give, before anything has been downloaded.
pub fn unavailable(rvn_installed: bool, daemon: Connection) -> (r: Option<String>)
    ensures
        r.deep_view() == (if !rvn_installed {
            Some("rvn is not installed, so packages cannot be installed from here."@)
        } else if daemon == Connection::Absent {
            Some(
                "rvnd is not running, so packages cannot be installed from here. Start it with `sudo raven-rc start rvnd`, or run `sudo rvn install …` in a terminal."@,
            )
        } else {
            None
        }),
{
    if !rvn_installed {
        return Some(
            String::from_str("rvn is not installed, so packages cannot be installed from here."),
        );
    }
    if daemon == Connection::Absent {
        return Some(
            String::from_str(
                "rvnd is not running, so packages cannot be installed from here. Start it with `sudo raven-rc start rvnd`, or run `sudo rvn install …` in a terminal.",
            ),
        );
    }
    None
}

/// What an install reports while it runs.
#[derive(Debug, Clone, PartialEq, Eq)]
pub enum Event {
    /// A stage began: "Resolving dependencies".
    Stage(String),
    /// Bytes or items done out of a total, for the bar.
    Progress { label: String, done: u64, total: u64 },
    /// A line worth putting in the log.
    Message(String),
    /// rvn reported a fatal error.
    Failed(String),
    /// The process exited.
    Exited { success: bool },
}

/// What an install reports.
#[verifier::ext_equal]
pub enum EventModel {
    Stage(Seq<char>),
    Progress(Seq<char>, u64, u64),
    Message(Seq<char>),
    Failed(Seq<char>),
    Exited(bool),
}

impl DeepView for Event {
    type V = EventModel;

    open spec fn deep_view(&self) -> EventModel {
        match self {
            Event::Stage(name) => EventModel::Stage(name@),
            Event::Progress { label, done, total } => EventModel::Progress(label@, *done, *total),
            Event::Message(text) => EventModel::Message(text@),
            Event::Failed(text) => EventModel::Failed(text@),
            Event::Exited { success } => EventModel::Exited(*success),
        }
    }
}

/// A character that a package name may hold: a letter, a digit, or one of `@._+-`.
pub open spec fn is_name_char(c: char) -> bool {
    is_alnum(c) || c == '@' || c == '.' || c == '_' || c == '+' || c == '-'
}

/// A package name, as Arch and rvn allow: at most 128 bytes of such characters, and not an option.
pub open spec fn is_package_name(name: Seq<char>) -> bool {
    &&& name.len() > 0
    &&& byte_len(name) <= 128
    &&& name[0] != '-'
    &&& forall|i: int| 0 <= i < name.len() ==> is_name_char(#[trigger] name[i])
}

/// Refuses what is no package name. The name comes from this app's own tables, so a failure here is
/// a bug in the app rather than something a person typed, and it should be loud.
pub fn validate_package_name(name: &str) -> (r: Result<(), String>)
    ensures
        r is Ok == is_package_name(name@),
        r is Err ==> r->Err_0@ == "Not a package name: "@ + name@,
{
    let chars = chars_of(name);
    let refusal = cat2("Not a package name: ", name);
    if chars.len() == 0 || longer_than(&chars, 128) || chars[0] == '-' {
        return Err(refusal);
    }
    let mut i: usize = 0;
    while i < chars.len()
        invariant
            i <= chars.len(),
            forall|j: int| 0 <= j < i ==> is_name_char(#[trigger] chars@[j]),
            chars@ == name@,
            refusal@ == "Not a package name: "@ + name@,
        decreases chars.len() - i,
    {
        let c = chars[i];
        let known: bool = alnum(c) || c == '@' || c == '.' || c == '_' || c == '+' || c == '-';
        if !known {
            assert(!is_name_char(name@[i as int]));
            return Err(refusal);
        }
        i = i + 1;
    }
    Ok(())
}

/// All of some texts are package names.
pub open spec fn all_are_names(packages: Seq<Seq<char>>) -> bool {
    forall|i: int| 0 <= i < packages.len() ==> is_package_name(#[trigger] packages[i])
}

/// The command that installs packages.
pub open spec fn install_command(rvn: Seq<char>, packages: Seq<Seq<char>>) -> Seq<Seq<char>> {
    seq![rvn, "--json"@, "-y"@, "install"@] + packages
}

/// The first of some texts that is no package name.
pub open spec fn first_refused(packages: Seq<Seq<char>>) -> Option<Seq<char>> {
    first_where(packages, |n: Seq<char>| !is_package_name(n))
}

fn validate_all(packages: &Vec<String>) -> (r: Result<(), String>)
    ensures
        r is Ok == all_are_names(packages.deep_view()),
        match first_refused(packages.deep_view()) {
            Some(name) => r is Err && r->Err_0@ == "Not a package name: "@ + name,
            None => r is Ok,
        },
{
    let ghost every = packages.deep_view();
    let ghost p = |n: Seq<char>| !is_package_name(n);
    let mut i: usize = 0;
    while i < packages.len()
        invariant
            i <= packages.len(),
            every == packages.deep_view(),
            p == (|n: Seq<char>| !is_package_name(n)),
            forall|j: int| 0 <= j < i ==> !p(#[trigger] every[j]),
        decreases packages.len() - i,
    {
        assert(every[i as int] == packages@[i as int]@);
        match validate_package_name(&packages[i]) {
            Ok(_) => {},
            Err(message) => {
                proof {
                    lemma_first_is(every, p, i as int);
                    assert(!is_package_name(every[i as int]));
                }
                return Err(message);
            },
        }
        i = i + 1;
    }
    proof {
        lemma_first_none(every, p);
        assert forall|j: int| 0 <= j < every.len() implies is_package_name(#[trigger] every[j]) by {
            assert(!p(every[j]));
        }
    }
    Ok(())
}

/// The command that installs packages, the program first. Nothing to install is refused, and so is
/// what is no package name, before rvn is looked for.
pub fn install(rvn: Option<&str>, packages: &Vec<String>) -> (r: Result<Vec<String>, String>)
    ensures
        r is Ok == (packages.len() > 0 && all_are_names(packages.deep_view()) && rvn is Some),
        match r {
            Ok(command) => command.deep_view() == install_command(rvn->0@, packages.deep_view()),
            Err(message) => message@ == (if packages.len() == 0 {
                "Nothing to install"@
            } else {
                match first_refused(packages.deep_view()) {
                    Some(name) => "Not a package name: "@ + name,
                    None => "rvn is not installed"@,
                }
            }),
        },
{
    if packages.len() == 0 {
        return Err(String::from_str("Nothing to install"));
    }
    match validate_all(packages) {
        Ok(_) => {},
        Err(message) => return Err(message),
    }
    match rvn {
        Some(program) => {
            let mut command: Vec<String> = Vec::new();
            command.push(String::from_str(program));
            command.push(String::from_str("--json"));
            command.push(String::from_str("-y"));
            command.push(String::from_str("install"));
            let ghost head = command.deep_view();
            assert(head =~= seq![program@, "--json"@, "-y"@, "install"@]);
            let mut rest = crate::checks::copied_strings(packages);
            let ghost tail = rest.deep_view();
            command.append(&mut rest);
            assert(command.deep_view() =~= head + tail);
            Ok(command)
        },
        None => Err(String::from_str("rvn is not installed")),
    }
}

/// What is said where rvn could not be started.
pub fn start_failure(error: &str) -> (r: String)
    ensures
        r@ == "Could not start rvn: "@ + error@,
{
    cat2("Could not start rvn: ", error)
}

// ---------------------------------------------------------------------------
// rvn's events
// ---------------------------------------------------------------------------

/// Where a text stands, as far as escape sequences go: outside one, behind an escape character, or
/// inside a control sequence.
#[derive(Clone, Copy, PartialEq, Eq, Structural)]
pub enum Escape {
    Outside,
    Begun,
    Inside,
}

/// Where a text stands after one more character.
pub open spec fn escape_after(state: Escape, c: char) -> Escape {
    match state {
        Escape::Outside => if c == '\u{1b}' {
            Escape::Begun
        } else {
            Escape::Outside
        },
        Escape::Begun => if c == '[' {
            Escape::Inside
        } else {
            Escape::Outside
        },
        Escape::Inside => if '@' <= c && c <= '~' {
            Escape::Outside
        } else {
            Escape::Inside
        },
    }
}

/// What of a text is outside escape sequences. A control sequence ends with a character between `@`
/// and `~`; any other escape is two characters.
pub open spec fn outside(s: Seq<char>, state: Escape) -> Seq<char>
    decreases s.len(),
{
    if s.len() == 0 {
        Seq::empty()
    } else if state == Escape::Outside && s[0] != '\u{1b}' {
        seq![s[0]] + outside(s.skip(1), Escape::Outside)
    } else {
        outside(s.skip(1), escape_after(state, s[0]))
    }
}

/// A text without the escape sequences that colour it in a terminal; a dialog would show them as
/// literal characters.
pub fn strip_ansi(text: &str) -> (r: String)
    ensures
        r@ == outside(text@, Escape::Outside),
{
    let chars = chars_of(text);
    let ghost all = text@;
    let mut out = String::from_str("");
    let mut state = Escape::Outside;
    let mut i: usize = 0;
    proof {
        reveal_strlit("");
        assert(out@ =~= Seq::empty());
        assert(all.skip(0) =~= all);
        assert(out@ + outside(all, Escape::Outside) =~= outside(all, Escape::Outside));
    }
    while i < chars.len()
        invariant
            i <= chars.len(),
            chars@ == all,
            all == text@,
            out@ + outside(all.skip(i as int), state) == outside(all, Escape::Outside),
        decreases chars.len() - i,
    {
        let c = chars[i];
        let ghost rest = all.skip(i as int);
        let ghost before = out@;
        assert(rest[0] == c);
        assert(rest.skip(1) =~= all.skip(i + 1));
        if state == Escape::Outside && c != '\u{1b}' {
            out.push(c);
            assert(out@ + outside(all.skip(i + 1), state) =~= before + (seq![c] + outside(
                all.skip(i + 1),
                state,
            )));
        } else {
            state = match state {
                Escape::Outside => Escape::Begun,
                Escape::Begun => if c == '[' {
                    Escape::Inside
                } else {
                    Escape::Outside
                },
                Escape::Inside => if '@' <= c && c <= '~' {
                    Escape::Outside
                } else {
                    Escape::Inside
                },
            };
        }
        i = i + 1;
    }
    assert(out@ + Seq::<char>::empty() =~= out@);
    out
}

/// The text under a key, without colour and without the white space round it.
pub open spec fn clean_text(m: JsonModel, key: Seq<char>) -> Option<Seq<char>> {
    match text_in(member(m, key)) {
        Some(text) => Some(trim(outside(text, Escape::Outside))),
        None => None,
    }
}

/// The text under a key, without colour and without the white space round it.
pub fn text(value: &Json, key: &str) -> (r: Option<String>)
    ensures
        r.deep_view() == clean_text(value.model(), key@),
{
    match value.text_at(key) {
        Some(text) => {
            let plain = strip_ansi(text);
            Some(string_of(trimmed(&chars_of(&plain))))
        },
        None => None,
    }
}

/// A count under a key; zero where there is none.
pub open spec fn count_under(m: JsonModel, key: Seq<char>) -> u64 {
    match number_in(member(m, key)) {
        Some(n) => n,
        None => 0,
    }
}

fn count_at(value: &Json, key: &str) -> (r: u64)
    ensures
        r == count_under(value.model(), key@),
{
    match value.get(key) {
        Some(v) => match v.number() {
            Some(n) => n,
            None => 0,
        },
        None => 0,
    }
}

/// What one of rvn's events is in a progress dialog; nothing where the dialog does not show it.
/// `detail` is the terminal's indented commentary, and noise in a dialog.
pub open spec fn translated(m: JsonModel) -> Option<EventModel> {
    match text_in(member(m, "event"@)) {
        None => None,
        Some(kind) => if kind == "stage"@ {
            match clean_text(m, "name"@) {
                Some(name) => Some(EventModel::Stage(name)),
                None => None,
            }
        } else if kind == "stage_done"@ {
            match clean_text(m, "message"@) {
                Some(message) => Some(EventModel::Message(message)),
                None => None,
            }
        } else if kind == "progress"@ {
            Some(
                EventModel::Progress(
                    match clean_text(m, "label"@) {
                        Some(label) => label,
                        None => ""@,
                    },
                    count_under(m, "done"@),
                    count_under(m, "total"@),
                ),
            )
        } else if kind == "message"@ {
            if text_in(member(m, "kind"@)) == Some("detail"@) {
                None
            } else {
                match clean_text(m, "text"@) {
                    Some(text) => Some(EventModel::Message(text)),
                    None => None,
                }
            }
        } else if kind == "failed"@ {
            Some(
                EventModel::Failed(
                    match clean_text(m, "message"@) {
                        Some(message) => message,
                        None => "rvn failed"@,
                    },
                ),
            )
        } else {
            None
        },
    }
}

/// One rvn event into one of a progress dialog's, or nothing when it is not something such a dialog
/// shows.
pub fn translate(value: &Json) -> (r: Option<Event>)
    ensures
        r.deep_view() == translated(value.model()),
{
    match value.text_at("event") {
        None => None,
        Some(kind) => if equal(kind, "stage") {
            match text(value, "name") {
                Some(name) => Some(Event::Stage(name)),
                None => None,
            }
        } else if equal(kind, "stage_done") {
            match text(value, "message") {
                Some(message) => Some(Event::Message(message)),
                None => None,
            }
        } else if equal(kind, "progress") {
            let label: String = match text(value, "label") {
                Some(label) => label,
                None => String::from_str(""),
            };
            Some(
                Event::Progress {
                    label,
                    done: count_at(value, "done"),
                    total: count_at(value, "total"),
                },
            )
        } else if equal(kind, "message") {
            let detail: bool = match value.text_at("kind") {
                Some(k) => equal(k, "detail"),
                None => false,
            };
            if detail {
                None
            } else {
                match text(value, "text") {
                    Some(text) => Some(Event::Message(text)),
                    None => None,
                }
            }
        } else if equal(kind, "failed") {
            let message: String = match text(value, "message") {
                Some(message) => message,
                None => String::from_str("rvn failed"),
            };
            Some(Event::Failed(message))
        } else {
            None
        },
    }
}

/// What a line of rvn's event stream is in a progress dialog; a line that is no JSON is passed over.
pub fn read_event(line: &str) -> (r: Option<Event>)
    ensures
        r.deep_view() == (match json_read(line@) {
            Some(value) => translated(value),
            None => None,
        }),
{
    match read_json(line) {
        Some(value) => translate(&value),
        None => None,
    }
}

/// What a line of rvn's error output is in a progress dialog: a line for the log, unless it is
/// blank.
pub fn read_log(line: &str) -> (r: Option<Event>)
    ensures
        r.deep_view() == ({
            let text = trim(outside(line@, Escape::Outside));
            if text.len() == 0 {
                None
            } else {
                Some(EventModel::Message(text))
            }
        }),
{
    let plain = strip_ansi(line);
    let chars = chars_of(&plain);
    let text = trimmed(&chars);
    if text.len() == 0 {
        None
    } else {
        Some(Event::Message(string_of(text)))
    }
}

// ---------------------------------------------------------------------------
// A terminal
// ---------------------------------------------------------------------------

/// The terminal emulators that are tried, in order.
pub fn terminals() -> (r: Vec<&'static str>)
    ensures
        crate::checks::str_texts(r@) == seq![
            "raven-terminal"@,
            "foot"@,
            "alacritty"@,
            "kitty"@,
            "xterm"@,
        ],
{
    let names = vec!["raven-terminal", "foot", "alacritty", "kitty", "xterm"];
    assert(crate::checks::str_texts(names@) =~= seq![
        "raven-terminal"@,
        "foot"@,
        "alacritty"@,
        "kitty"@,
        "xterm"@,
    ]);
    names
}

/// The command that installs packages in a terminal.
pub open spec fn terminal_command(terminal: Seq<char>, packages: Seq<Seq<char>>) -> Seq<Seq<char>> {
    seq![
        terminal,
        "-e"@,
        "sh"@,
        "-c"@,
        "sudo rvn install "@ + join(packages, " "@)
            + "; echo; read -r -p 'Press Enter to close…' _"@,
    ]
}

/// The command that opens rvn in a terminal, for a person who would rather watch it there; `found`
/// holds where each of the terminals is, in order. What is no package name is refused, as it is never
/// handed to rvn, and it is an error where there is no terminal.
pub fn open_in_terminal(found: &Vec<Option<String>>, packages: &Vec<String>) -> (r: Result<
    Vec<String>,
    String,
>)
    ensures
        match first_refused(packages.deep_view()) {
            Some(name) => r is Err && r->Err_0@ == "Not a package name: "@ + name,
            None => match first_where(found.deep_view(), |t: Option<Seq<char>>| t is Some) {
                Some(t) => r is Ok && r->Ok_0.deep_view() == terminal_command(
                    t->0,
                    packages.deep_view(),
                ),
                None => r is Err && r->Err_0@ == "No terminal emulator is installed"@,
            },
        },
{
    match validate_all(packages) {
        Ok(_) => {},
        Err(message) => return Err(message),
    }
    let ghost every = found.deep_view();
    let ghost p = |t: Option<Seq<char>>| t is Some;
    let mut i: usize = 0;
    while i < found.len()
        invariant
            i <= found.len(),
            every == found.deep_view(),
            p == (|t: Option<Seq<char>>| t is Some),
            first_refused(packages.deep_view()) is None,
            forall|j: int| 0 <= j < i ==> !p(#[trigger] every[j]),
        decreases found.len() - i,
    {
        assert(every[i as int] == found@[i as int].deep_view());
        if let Some(terminal) = &found[i] {
            proof {
                lemma_first_is(every, p, i as int);
            }
            let mut command: Vec<String> = Vec::new();
            command.push(terminal.clone());
            command.push(String::from_str("-e"));
            command.push(String::from_str("sh"));
            command.push(String::from_str("-c"));
            command.push(
                cat3(
                    "sudo rvn install ",
                    &joined(packages, " "),
                    "; echo; read -r -p 'Press Enter to close…' _",
                ),
            );
            assert(command.deep_view() =~= terminal_command(terminal@, packages.deep_view()));
            return Ok(command);
        }
        i = i + 1;
    }
    proof {
        lemma_first_none(every, p);
    }
    Err(String::from_str("No terminal emulator is installed"))
}

/// What is said where a terminal could not be opened.
pub fn terminal_failure(error: &str) -> (r: String)
    ensures
        r@ == "Could not open a terminal: "@ + error@,
{
    cat2("Could not open a terminal: ", error)
}

// ---------------------------------------------------------------------------
// The cache
// ---------------------------------------------------------------------------

/// The user's cache directory: the environment's, or `.cache` below the home directory; none where
/// there is no home.
pub fn cache_dir(home: Option<&str>, cache_home: Option<&str>) -> (r: Option<String>)
    ensures
        r.deep_view() == (match home {
            Some(h) => Some(
                match cache_home {
                    Some(dir) => dir@,
                    None => crate::path::join(h@, ".cache"@),
                },
            ),
            None => None,
        }),
{
    match home {
        Some(h) => match cache_home {
            Some(dir) => Some(String::from_str(dir)),
            None => Some(joined_path(h, ".cache")),
        },
        None => None,
    }
}

/// A path is below the cache directory, and not that directory itself.
pub open spec fn is_below(path: Seq<char>, cache: Seq<char>) -> bool {
    is_within(path, cache) && !same_path(path, cache)
}

/// Whether a path is inside the user's own cache, which is the only place this app will delete
/// anything from. Both are given with every link resolved; what could not be resolved is not in the
/// cache, so that nothing is deleted on a guess.
pub fn is_in_user_cache(path: Option<&str>, cache: Option<&str>) -> (r: bool)
    ensures
        r == (path is Some && cache is Some && is_below(path->0@, cache->0@)),
{
    match path {
        Some(p) => match cache {
            Some(c) => leads_through(p, c) && !is_same_path(p, c),
            None => false,
        },
        None => false,
    }
}

// ---------------------------------------------------------------------------
// Laws
// ---------------------------------------------------------------------------

/// No escape character reaches the dialog.
pub proof fn no_escape_is_left(s: Seq<char>, state: Escape)
    ensures
        !outside(s, state).contains('\u{1b}'),
    decreases s.len(),
{
    if s.len() > 0 {
        if state == Escape::Outside && s[0] != '\u{1b}' {
            let rest = outside(s.skip(1), Escape::Outside);
            no_escape_is_left(s.skip(1), Escape::Outside);
            let all = seq![s[0]] + rest;
            if all.contains('\u{1b}') {
                let k = choose|k: int| 0 <= k < all.len() && all[k] == '\u{1b}';
                assert(rest[k - 1] == '\u{1b}');
            }
        } else {
            no_escape_is_left(s.skip(1), escape_after(state, s[0]));
        }
    }
}

/// A text without escape characters is left as it is.
pub proof fn plain_text_is_kept(s: Seq<char>)
    requires
        !s.contains('\u{1b}'),
    ensures
        outside(s, Escape::Outside) == s,
    decreases s.len(),
{
    if s.len() > 0 {
        assert(s[0] != '\u{1b}');
        let rest = s.skip(1);
        assert(!rest.contains('\u{1b}')) by {
            if rest.contains('\u{1b}') {
                let k = choose|k: int| 0 <= k < rest.len() && rest[k] == '\u{1b}';
                assert(s[k + 1] == '\u{1b}');
            }
        }
        plain_text_is_kept(rest);
        assert(seq![s[0]] + rest =~= s);
    } else {
        assert(outside(s, Escape::Outside) =~= s);
    }
}

/// Taking the colour out of a text twice takes out no more than once.
pub proof fn stripping_twice_is_stripping_once(s: Seq<char>)
    ensures
        outside(outside(s, Escape::Outside), Escape::Outside) == outside(s, Escape::Outside),
{
    no_escape_is_left(s, Escape::Outside);
    plain_text_is_kept(outside(s, Escape::Outside));
}

/// A package name is never read as an option, and holds nothing that separates words or commands.
pub proof fn names_are_single_words(name: Seq<char>, i: int)
    requires
        is_package_name(name),
        0 <= i < name.len(),
    ensures
        name[0] != '-',
        name[i] != ' ' && name[i] != ';' && name[i] != '/' && name[i] != '\n',
{
    assert(is_name_char(name[i]));
}

/// The cache directory itself may not be cleared, only what is below it.
pub proof fn the_cache_itself_is_not_below_it(cache: Seq<char>)
    ensures
        !is_below(cache, cache),
{
}

/// What may be handed to rvn as a package is one to 128 letters, digits and the marks that package names
/// are made with, and does not look like an option; everything of that kind may be.
pub proof fn ordinary_names_are_accepted(name: Seq<char>)
    ensures
        0 < name.len() <= 128 && name[0] != '-' && (forall|i: int|
            0 <= i < name.len() ==> is_alnum(#[trigger] name[i]) || name[i] == '@' || name[i] == '.'
                || name[i] == '_' || name[i] == '+' || name[i] == '-') ==> is_package_name(name),
        name.len() == 0 ==> !is_package_name(name),
        name.len() > 128 ==> !is_package_name(name),
        name.len() > 0 && name[0] == '-' ==> !is_package_name(name),
        (exists|i: int|
            0 <= i < name.len() && !is_alnum(#[trigger] name[i]) && name[i] != '@' && name[i] != '.'
                && name[i] != '_' && name[i] != '+' && name[i] != '-') ==> !is_package_name(name),
{
    lemma_bytes_of_name(name);
    if 0 < name.len() <= 128 && name[0] != '-' && (forall|i: int|
        0 <= i < name.len() ==> is_alnum(#[trigger] name[i]) || name[i] == '@' || name[i] == '.' || name[i]
            == '_' || name[i] == '+' || name[i] == '-') {
        assert forall|i: int| 0 <= i < name.len() implies is_name_char(#[trigger] name[i]) by {
            assert(is_alnum(name[i]) || name[i] == '@' || name[i] == '.' || name[i] == '_' || name[i] == '+'
                || name[i] == '-');
        }
    }
    if exists|i: int|
        0 <= i < name.len() && !is_alnum(#[trigger] name[i]) && name[i] != '@' && name[i] != '.' && name[i]
            != '_' && name[i] != '+' && name[i] != '-' {
        let i = choose|i: int|
            0 <= i < name.len() && !is_alnum(#[trigger] name[i]) && name[i] != '@' && name[i] != '.'
                && name[i] != '_' && name[i] != '+' && name[i] != '-';
        assert(!is_name_char(name[i]));
    }
}

proof fn lemma_bytes_of_name(name: Seq<char>)
    ensures
        byte_len(name) >= name.len(),
        (forall|i: int| 0 <= i < name.len() ==> is_name_char(#[trigger] name[i])) ==> byte_len(name)
            == name.len(),
    decreases name.len(),
{
    if name.len() > 0 {
        let init = name.drop_last();
        lemma_bytes_of_name(init);
        if forall|i: int| 0 <= i < name.len() ==> is_name_char(#[trigger] name[i]) {
            assert forall|i: int| 0 <= i < init.len() implies is_name_char(#[trigger] init[i]) by {
                assert(is_name_char(name[i]));
            }
            assert(is_name_char(name[name.len() - 1]));
        }
    }
}

/// Packages are installed by rvn, without a question and with its events as JSON, in the order they were
/// asked for.
pub proof fn packages_are_installed_as_asked(rvn: Seq<char>, packages: Seq<Seq<char>>, i: int)
    requires
        0 <= i < packages.len(),
    ensures
        install_command(rvn, packages).len() == packages.len() + 4,
        install_command(rvn, packages).take(4) == seq![rvn, "--json"@, "-y"@, "install"@],
        install_command(rvn, packages)[i + 4] == packages[i],
{
    assert(install_command(rvn, packages).take(4) =~= seq![rvn, "--json"@, "-y"@, "install"@]);
}

/// The first text that is no package name is the one that is refused, and where there is none all are.
pub proof fn the_first_bad_name_is_refused(packages: Seq<Seq<char>>, i: int)
    requires
        0 <= i < packages.len(),
    ensures
        !is_package_name(packages[i]) && (forall|j: int|
            0 <= j < i ==> is_package_name(#[trigger] packages[j])) ==> first_refused(packages) == Some(
            packages[i],
        ),
        (forall|j: int| 0 <= j < packages.len() ==> is_package_name(#[trigger] packages[j]))
            ==> first_refused(packages) is None,
{
    let p = |n: Seq<char>| !is_package_name(n);
    if !is_package_name(packages[i]) && (forall|j: int|
        0 <= j < i ==> is_package_name(#[trigger] packages[j])) {
        crate::lists::lemma_first_is(packages, p, i);
    }
    if forall|j: int| 0 <= j < packages.len() ==> is_package_name(#[trigger] packages[j]) {
        crate::lists::lemma_first_none(packages, p);
    }
}

/// Each of rvn's events is shown as what it is: a stage as a stage, its end and its messages as lines, its
/// progress as so much of a total, and a failure as one even where nothing is said of it. The commentary
/// of the terminal is not shown, and neither is an event of another kind.
pub proof fn events_are_shown_as_what_they_are(m: JsonModel, text: Seq<char>, kind: Seq<char>)
    requires
        text_in(member(m, "event"@)) == Some(kind),
    ensures
        kind == "stage"@ && text_in(member(m, "name"@)) == Some(text) ==> translated(m) == Some(
            EventModel::Stage(trim(outside(text, Escape::Outside))),
        ),
        kind == "stage_done"@ && text_in(member(m, "message"@)) == Some(text) ==> translated(m) == Some(
            EventModel::Message(trim(outside(text, Escape::Outside))),
        ),
        kind == "message"@ && text_in(member(m, "text"@)) == Some(text) && text_in(member(m, "kind"@))
            != Some("detail"@) ==> translated(m) == Some(
            EventModel::Message(trim(outside(text, Escape::Outside))),
        ),
        kind == "message"@ && text_in(member(m, "kind"@)) == Some("detail"@) ==> translated(m) is None,
        kind == "failed"@ && text_in(member(m, "message"@)) == Some(text) ==> translated(m) == Some(
            EventModel::Failed(trim(outside(text, Escape::Outside))),
        ),
        kind == "failed"@ ==> translated(m) is Some && translated(m)->0 is Failed,
        kind == "progress"@ ==> translated(m) is Some && translated(m)->0 is Progress,
{
    reveal_strlit("stage");
    reveal_strlit("stage_done");
    reveal_strlit("progress");
    reveal_strlit("message");
    reveal_strlit("failed");
    assert("stage"@.len() == 5 && "stage_done"@.len() == 10 && "progress"@.len() == 8 && "message"@.len()
        == 7 && "failed"@.len() == 6);
}

/// Progress is what is done, of a total, under its label.
pub proof fn progress_is_what_is_done_of_a_total(m: JsonModel, done: u64, total: u64, label: Seq<char>)
    requires
        text_in(member(m, "event"@)) == Some("progress"@),
        number_in(member(m, "done"@)) == Some(done),
        number_in(member(m, "total"@)) == Some(total),
        text_in(member(m, "label"@)) == Some(label),
    ensures
        translated(m) == Some(
            EventModel::Progress(trim(outside(label, Escape::Outside)), done, total),
        ),
{
    reveal_strlit("stage");
    reveal_strlit("stage_done");
    reveal_strlit("progress");
    assert("stage"@.len() == 5 && "stage_done"@.len() == 10 && "progress"@.len() == 8);
}

/// A colour is taken out whole and nothing else is: what stands before and after it stays.
pub proof fn a_colour_is_taken_out(before: Seq<char>, code: Seq<char>, end: char, after: Seq<char>)
    requires
        !before.contains('\u{1b}'),
        forall|i: int| 0 <= i < code.len() ==> !('@' <= #[trigger] code[i] <= '~'),
        '@' <= end <= '~',
    ensures
        outside(
            before + seq!['\u{1b}', '['] + code + seq![end] + after,
            Escape::Outside,
        ) == before + outside(after, Escape::Outside),
    decreases before.len(),
{
    let s = before + seq!['\u{1b}', '['] + code + seq![end] + after;
    if before.len() > 0 {
        assert(s[0] == before[0]);
        assert(before.contains(before[0]));
        assert(s.skip(1) =~= before.skip(1) + seq!['\u{1b}', '['] + code + seq![end] + after);
        assert(!before.skip(1).contains('\u{1b}')) by {
            if before.skip(1).contains('\u{1b}') {
                let k = choose|k: int| 0 <= k < before.skip(1).len() && before.skip(1)[k] == '\u{1b}';
                assert(before[k + 1] == '\u{1b}');
            }
        }
        a_colour_is_taken_out(before.skip(1), code, end, after);
        assert(seq![s[0]] + (before.skip(1) + outside(after, Escape::Outside)) =~= before + outside(
            after,
            Escape::Outside,
        ));
    } else {
        let rest = code + seq![end] + after;
        assert(s.skip(1).skip(1) =~= rest);
        assert(s[0] == '\u{1b}' && s.skip(1)[0] == '[');
        lemma_code(code, end, after);
        assert(outside(s, Escape::Outside) == outside(s.skip(1), Escape::Begun));
        assert(outside(s.skip(1), Escape::Begun) == outside(rest, Escape::Inside));
        assert(before + outside(after, Escape::Outside) =~= outside(after, Escape::Outside));
    }
}

proof fn lemma_code(code: Seq<char>, end: char, after: Seq<char>)
    requires
        forall|i: int| 0 <= i < code.len() ==> !('@' <= #[trigger] code[i] <= '~'),
        '@' <= end <= '~',
    ensures
        outside(code + seq![end] + after, Escape::Inside) == outside(after, Escape::Outside),
    decreases code.len(),
{
    let s = code + seq![end] + after;
    if code.len() > 0 {
        assert(s[0] == code[0]);
        assert(s.skip(1) =~= code.skip(1) + seq![end] + after);
        assert forall|i: int| 0 <= i < code.skip(1).len() implies !('@' <= #[trigger] code.skip(1)[i] <= '~') by {
            assert(!('@' <= code[i + 1] <= '~'));
        }
        lemma_code(code.skip(1), end, after);
    } else {
        assert(s[0] == end);
        assert(s.skip(1) =~= after);
    }
}

/// Only what is below the cache may be cleared: a path below it leads through every part of it, and
/// through something more.
pub proof fn only_the_cache_is_cleared(path: Seq<char>, cache: Seq<char>)
    requires
        is_below(path, cache),
    ensures
        crate::path::path_parts(cache).is_prefix_of(crate::path::path_parts(path)),
        crate::path::path_parts(path).len() > crate::path::path_parts(cache).len(),
        crate::path::is_rooted(path) == crate::path::is_rooted(cache),
{
    let p = crate::path::path_parts(path);
    let c = crate::path::path_parts(cache);
    if p.len() == c.len() {
        assert(p.subrange(0, c.len() as int) =~= p);
        assert(p == c);
    }
}

} // verus!
