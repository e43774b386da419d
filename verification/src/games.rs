//! The games on this computer, and the line that makes each one run right.
//!
//! Steam's library comes from the files Steam itself keeps, and Lutris's and Heroic's from theirs.
//! On a laptop with two graphics cards a game started normally runs on the integrated one; the
//! launch options written here are what puts it on the other.
use vstd::prelude::*;
use crate::casing::{lowercase, unicode_lowercase, unicode_uppercase, uppercase};
use crate::collections::{NameSet, TextMap};
use crate::gpu::{cards, hybrid, is_hybrid, primary_at, Gpu, GpuModel, Vendor};
use crate::json::{
    json_read, list_in, member, models, number_in, read_json, text_in, Json, JsonModel,
};
use crate::lists::{
    first_where, lemma_filter_map_step, lemma_filter_step, lemma_first_is,
    lemma_first_none,
};
use crate::number::{decimal, decimal_of, equal_but_case, read_u64, same_but_case, u64_of};
use crate::order::{
    by_rank, in_order, no_later, ranks, sort, sorting_orders, text_le, text_le_total,
    text_le_transitive, Ranked,
};
use crate::path::{is_same_path, join, joined_path, same_path};
use crate::query::{among, answers, steady, Asking, Question};
use crate::text::{
    all_digits, before_suffix, cat2, cat3, chars_of, cut_last, joined, lines, lines_of,
    only_digits, part, pieces, reads, rsplit_once, split, starts_with, string_of, strip_suffix, texts,
    trim, trimmed,
};
use crate::tune::{bytes_text, human_bytes};

verus! {

#[derive(Debug, Clone, Copy, PartialEq, Eq, PartialOrd, Ord, Structural)]
pub enum Source {
    Steam,
    Lutris,
    Heroic,
}

/// A launcher's name.
pub open spec fn source_name(s: Source) -> Seq<char> {
    match s {
        Source::Steam => "Steam"@,
        Source::Lutris => "Lutris"@,
        Source::Heroic => "Heroic"@,
    }
}

impl Source {
    pub fn name(self) -> (r: &'static str)
        ensures
            r@ == source_name(self),
    {
        match self {
            Source::Steam => "Steam",
            Source::Lutris => "Lutris",
            Source::Heroic => "Heroic",
        }
    }
}

#[derive(Debug, PartialEq, Eq)]
pub struct Game {
    pub name: String,
    pub source: Source,
    /// Steam's app id, when there is one. It is what the person needs to look anything up.
    pub app_id: Option<String>,
    /// Bytes on disk, when the launcher recorded it.
    pub size_on_disk: u64,
    /// Seconds since the epoch, when the launcher recorded it.
    pub last_played: Option<u64>,
    pub install_dir: Option<String>,
}

/// What is known of a game.
#[verifier::ext_equal]
pub struct GameModel {
    pub name: Seq<char>,
    pub source: Source,
    pub app_id: Option<Seq<char>>,
    pub size_on_disk: u64,
    pub last_played: Option<u64>,
    pub install_dir: Option<Seq<char>>,
}

impl DeepView for Game {
    type V = GameModel;

    open spec fn deep_view(&self) -> GameModel {
        GameModel {
            name: self.name@,
            source: self.source,
            app_id: self.app_id.deep_view(),
            size_on_disk: self.size_on_disk,
            last_played: self.last_played,
            install_dir: self.install_dir.deep_view(),
        }
    }
}

impl Clone for Game {
    fn clone(&self) -> (r: Game)
        ensures
            r.deep_view() == self.deep_view(),
    {
        Game {
            name: self.name.clone(),
            source: self.source,
            app_id: crate::gpu::copied(&self.app_id),
            size_on_disk: self.size_on_disk,
            last_played: self.last_played,
            install_dir: crate::gpu::copied(&self.install_dir),
        }
    }
}

/// When a game was last played, as a number; never comes before every moment.
pub open spec fn played(g: GameModel) -> int {
    match g.last_played {
        Some(t) => t as int,
        None => -1,
    }
}

impl Ranked for Game {
    open spec fn le(a: GameModel, b: GameModel) -> bool {
        if played(a) != played(b) {
            played(a) > played(b)
        } else {
            text_le(unicode_lowercase(a.name), unicode_lowercase(b.name))
        }
    }

    fn at_most(&self, other: &Game) -> (r: bool) {
        match self.last_played {
            Some(a) => match other.last_played {
                Some(b) => if a != b {
                    a > b
                } else {
                    no_later(&lowercase(&self.name), &lowercase(&other.name))
                },
                None => true,
            },
            None => match other.last_played {
                Some(_) => false,
                None => no_later(&lowercase(&self.name), &lowercase(&other.name)),
            },
        }
    }
}

/// What is said of a game: its size and when it was last played, as far as they are known.
pub open spec fn game_detail(g: GameModel, now: u64) -> Seq<char> {
    let size = g.size_on_disk > 0;
    let when = g.last_played is Some && g.last_played->0 > 0;
    let played_text = "last played "@ + time_since(g.last_played->0, now);
    if size && when {
        bytes_text(g.size_on_disk) + " · "@ + played_text
    } else if size {
        bytes_text(g.size_on_disk)
    } else if when {
        played_text
    } else {
        "installed"@
    }
}

impl Game {
    /// "16.1 GB · last played 3 days ago", or as much of it as is known.
    pub fn detail(&self, now: u64) -> (r: String)
        ensures
            r@ == game_detail(self.deep_view(), now),
    {
        let size: bool = self.size_on_disk > 0;
        let when: u64 = match self.last_played {
            Some(t) => t,
            None => 0,
        };
        if size && when > 0 {
            let bytes = human_bytes(self.size_on_disk);
            let last = cat2("last played ", &ago(when, now));
            cat3(&bytes, " · ", &last)
        } else if size {
            human_bytes(self.size_on_disk)
        } else if when > 0 {
            cat2("last played ", &ago(when, now))
        } else {
            String::from_str("installed")
        }
    }
}

/// How long ago a moment was. Coarse on purpose: nobody needs the minute they last played
/// something.
pub open spec fn time_since(timestamp: u64, now: u64) -> Seq<char> {
    let s = if now > timestamp {
        now - timestamp
    } else {
        0
    };
    if s < 3600 {
        "in the last hour"@
    } else if s < 172_800 {
        "yesterday"@
    } else if s < 2_592_000 {
        decimal(s / 86_400) + " days ago"@
    } else if s < 63_072_000 {
        decimal(s / 2_592_000) + " months ago"@
    } else {
        decimal(s / 31_536_000) + " years ago"@
    }
}

/// "3 days ago", from a moment in seconds since the epoch and the present one.
pub fn ago(timestamp: u64, now: u64) -> (r: String)
    ensures
        r@ == time_since(timestamp, now),
{
    let s: u64 = if now > timestamp {
        now - timestamp
    } else {
        0
    };
    if s < 3600 {
        String::from_str("in the last hour")
    } else if s < 172_800 {
        String::from_str("yesterday")
    } else if s < 2_592_000 {
        cat2(&decimal_of(s / 86_400), " days ago")
    } else if s < 63_072_000 {
        cat2(&decimal_of(s / 2_592_000), " months ago")
    } else {
        cat2(&decimal_of(s / 31_536_000), " years ago")
    }
}

/// Every game found, last played first.
pub fn discover(steam: Vec<Game>, lutris: Vec<Game>, heroic: Vec<Game>) -> (r: Vec<Game>)
    ensures
        r.deep_view() == by_rank::<Game>(
            steam.deep_view() + lutris.deep_view() + heroic.deep_view(),
        ),
{
    let ghost all = steam.deep_view() + lutris.deep_view() + heroic.deep_view();
    let mut games = steam;
    let mut second = lutris;
    let mut third = heroic;
    games.append(&mut second);
    games.append(&mut third);
    assert(games.deep_view() =~= all);
    sort(games)
}

// ---------------------------------------------------------------------------
// Steam
// ---------------------------------------------------------------------------

/// Where Steam might be, in the order Steam itself looks.
pub open spec fn steam_places(home: Seq<char>) -> Seq<Seq<char>> {
    seq![
        join(home, ".local/share/Steam"@),
        join(home, ".steam/steam"@),
        join(home, ".steam/root"@),
        join(home, ".var/app/com.valvesoftware.Steam/.local/share/Steam"@),
    ]
}

/// The places where Steam is: those with a directory of games.
pub open spec fn roots_of(home: Option<Seq<char>>, directories: Set<Seq<char>>) -> Seq<Seq<char>> {
    match home {
        Some(h) => steam_places(h).filter(
            |p: Seq<char>| directories.contains(join(p, "steamapps"@)),
        ),
        None => Seq::empty(),
    }
}

/// Where Steam might be, in the order Steam itself looks.
pub fn steam_candidates(home: &str) -> (r: Vec<String>)
    ensures
        r.deep_view() == steam_places(home@),
{
    let mut out: Vec<String> = Vec::new();
    out.push(joined_path(home, ".local/share/Steam"));
    out.push(joined_path(home, ".steam/steam"));
    out.push(joined_path(home, ".steam/root"));
    out.push(joined_path(home, ".var/app/com.valvesoftware.Steam/.local/share/Steam"));
    assert(out.deep_view() =~= steam_places(home@));
    out
}

/// Where Steam is, given which directories exist.
pub fn steam_roots(home: Option<&str>, directories: &NameSet) -> (r: Vec<String>)
    ensures
        r.deep_view() == roots_of(home.deep_view(), directories@),
{
    let mut out: Vec<String> = Vec::new();
    match home {
        Some(h) => {
            let all = steam_candidates(h);
            let ghost every = all.deep_view();
            let ghost p = |p: Seq<char>| directories@.contains(join(p, "steamapps"@));
            let mut i: usize = 0;
            proof {
                reveal(Seq::filter);
            }
            assert(out.deep_view() =~= every.take(0).filter(p));
            while i < all.len()
                invariant
                    i <= all.len(),
                    every == all.deep_view(),
                    p == (|p: Seq<char>| directories@.contains(join(p, "steamapps"@))),
                    out.deep_view() == every.take(i as int).filter(p),
                decreases all.len() - i,
            {
                proof {
                    lemma_filter_step(every, i as int, p);
                    assert(every[i as int] == all@[i as int]@);
                }
                let ghost before = out.deep_view();
                if directories.contains(&joined_path(&all[i], "steamapps")) {
                    out.push(all[i].clone());
                    assert(out.deep_view() =~= before.push(every[i as int]));
                }
                i = i + 1;
            }
            assert(every.take(i as int) =~= every);
            out
        },
        None => {
            assert(out.deep_view() =~= Seq::empty());
            out
        },
    }
}

/// Whether Steam is installed: its command was found, or it is somewhere in the home directory.
pub fn steam_installed(commands: &NameSet, roots: &Vec<String>) -> (r: bool)
    ensures
        r == (commands@.contains("steam"@) || roots@.len() > 0),
{
    commands.contains("steam") || roots.len() > 0
}

/// A path is among some others.
pub open spec fn has_path(paths: Seq<Seq<char>>, path: Seq<char>) -> bool {
    exists|i: int| 0 <= i < paths.len() && same_path(#[trigger] paths[i], path)
}

fn contains_path(paths: &Vec<String>, path: &str) -> (r: bool)
    ensures
        r == has_path(paths.deep_view(), path@),
{
    let mut i: usize = 0;
    while i < paths.len()
        invariant
            i <= paths.len(),
            forall|j: int|
                0 <= j < i ==> !same_path(#[trigger] paths.deep_view()[j], path@),
        decreases paths.len() - i,
    {
        assert(paths.deep_view()[i as int] == paths@[i as int]@);
        if is_same_path(&paths[i], path) {
            return true;
        }
        i = i + 1;
    }
    false
}

/// Libraries, with those that a list of paths adds: each that is a directory and not there yet.
pub open spec fn with_libraries(
    start: Seq<Seq<char>>,
    paths: Seq<Seq<char>>,
    directories: Set<Seq<char>>,
) -> Seq<Seq<char>>
    decreases paths.len(),
{
    if paths.len() == 0 {
        start
    } else {
        let rest = with_libraries(start, paths.drop_last(), directories);
        let candidate = join(paths.last(), "steamapps"@);
        if directories.contains(candidate) && !has_path(rest, candidate) {
            rest.push(candidate)
        } else {
            rest
        }
    }
}

/// Every directory of games that Steam knows about, from a root and the text of its library list.
pub open spec fn libraries_of(
    root: Seq<char>,
    vdf: Option<Seq<char>>,
    directories: Set<Seq<char>>,
) -> Seq<Seq<char>> {
    let own = seq![join(root, "steamapps"@)];
    match vdf {
        Some(text) => with_libraries(own, values_in(text, "path"@), directories),
        None => own,
    }
}

/// Every `steamapps` directory Steam knows about, including libraries on other drives, from the
/// text of `libraryfolders.vdf` where it could be read.
pub fn steam_libraries(root: &str, vdf: Option<&str>, directories: &NameSet) -> (r: Vec<String>)
    ensures
        r.deep_view() == libraries_of(root@, vdf.deep_view(), directories@),
{
    let mut libraries: Vec<String> = Vec::new();
    libraries.push(joined_path(root, "steamapps"));
    let ghost own = seq![join(root@, "steamapps"@)];
    assert(libraries.deep_view() =~= own);
    if let Some(text) = vdf {
        let paths = vdf_values(text, "path");
        let ghost every = paths.deep_view();
        let mut i: usize = 0;
        while i < paths.len()
            invariant
                i <= paths.len(),
                every == paths.deep_view(),
                libraries.deep_view() == with_libraries(own, every.take(i as int), directories@),
            decreases paths.len() - i,
        {
            assert(every.take(i + 1).drop_last() =~= every.take(i as int));
            assert(every.take(i + 1).last() == paths@[i as int]@);
            let ghost before = libraries.deep_view();
            let candidate = joined_path(&paths[i], "steamapps");
            if directories.contains(&candidate) && !contains_path(&libraries, &candidate) {
                let ghost c = candidate@;
                libraries.push(candidate);
                assert(libraries.deep_view() =~= before.push(c));
            }
            i = i + 1;
        }
        assert(every.take(i as int) =~= every);
    }
    libraries
}

/// A file: its name, and its text where it could be read.
#[derive(Debug)]
pub struct NamedText {
    pub name: String,
    pub text: Option<String>,
}

impl DeepView for NamedText {
    type V = (Seq<char>, Option<Seq<char>>);

    open spec fn deep_view(&self) -> (Seq<char>, Option<Seq<char>>) {
        (self.name@, self.text.deep_view())
    }
}

/// A directory of games: its path, its real path where that could be told, and its files.
#[derive(Debug)]
pub struct Library {
    pub path: String,
    pub real_path: Option<String>,
    pub files: Vec<NamedText>,
}

/// What is known of a directory of games.
#[verifier::ext_equal]
pub struct LibraryModel {
    pub path: Seq<char>,
    pub real_path: Option<Seq<char>>,
    pub files: Seq<(Seq<char>, Option<Seq<char>>)>,
}

impl DeepView for Library {
    type V = LibraryModel;

    open spec fn deep_view(&self) -> LibraryModel {
        LibraryModel {
            path: self.path@,
            real_path: self.real_path.deep_view(),
            files: self.files.deep_view(),
        }
    }
}

/// The path that a library is known by: its real one, where that could be told.
pub open spec fn library_key(l: LibraryModel) -> Seq<char> {
    match l.real_path {
        Some(p) => p,
        None => l.path,
    }
}

/// The keys of the libraries that are read, each once.
pub open spec fn seen_keys(libraries: Seq<LibraryModel>) -> Seq<Seq<char>>
    decreases libraries.len(),
{
    if libraries.len() == 0 {
        Seq::empty()
    } else {
        let rest = seen_keys(libraries.drop_last());
        if has_path(rest, library_key(libraries.last())) {
            rest
        } else {
            rest.push(library_key(libraries.last()))
        }
    }
}

/// The games of some libraries; a library found twice under different names is read once.
pub open spec fn library_games(libraries: Seq<LibraryModel>) -> Seq<GameModel>
    decreases libraries.len(),
{
    if libraries.len() == 0 {
        Seq::empty()
    } else {
        let rest = library_games(libraries.drop_last());
        let l = libraries.last();
        if has_path(seen_keys(libraries.drop_last()), library_key(l)) {
            rest
        } else {
            rest + games_in(l)
        }
    }
}

/// The games of one library: what its manifests describe.
pub open spec fn games_in(l: LibraryModel) -> Seq<GameModel> {
    l.files.filter_map(|f: (Seq<char>, Option<Seq<char>>)| game_in_file(f, l.path))
}

/// The game that a file of a library describes.
pub open spec fn game_in_file(
    f: (Seq<char>, Option<Seq<char>>),
    steamapps: Seq<char>,
) -> Option<GameModel> {
    match f.1 {
        Some(text) => if "appmanifest_"@.is_prefix_of(f.0) {
            manifest_game(text, steamapps)
        } else {
            None
        },
        None => None,
    }
}

/// Whether a file of a library is named as manifests are.
pub fn named_as_manifest(name: &str) -> (r: bool)
    ensures
        r == "appmanifest_"@.is_prefix_of(name@),
{
    starts_with(&chars_of(name), "appmanifest_")
}

fn games_in_library(library: &Library) -> (r: Vec<Game>)
    ensures
        r.deep_view() == games_in(library.deep_view()),
{
    let ghost every = library.files.deep_view();
    let ghost f = |f: (Seq<char>, Option<Seq<char>>)| game_in_file(f, library.path@);
    let mut out: Vec<Game> = Vec::new();
    let mut i: usize = 0;
    while i < library.files.len()
        invariant
            i <= library.files.len(),
            every == library.files.deep_view(),
            f == (|f: (Seq<char>, Option<Seq<char>>)| game_in_file(f, library.path@)),
            out.deep_view() == every.take(i as int).filter_map(f),
        decreases library.files.len() - i,
    {
        proof {
            lemma_filter_map_step(every, i as int, f);
            assert(every[i as int] == library.files@[i as int].deep_view());
        }
        let ghost before = out.deep_view();
        let file = &library.files[i];
        if let Some(text) = &file.text {
            if named_as_manifest(&file.name) {
                if let Some(game) = parse_app_manifest(text, &library.path) {
                    let ghost g = game.deep_view();
                    out.push(game);
                    assert(out.deep_view() =~= before.push(g));
                }
            }
        }
        i = i + 1;
    }
    assert(every.take(i as int) =~= every);
    out
}

/// Every game of some Steam libraries. A root found twice under different names must not list its
/// games twice; real paths make the two the same path.
pub fn steam_games(libraries: &Vec<Library>) -> (r: Vec<Game>)
    ensures
        r.deep_view() == library_games(libraries.deep_view()),
{
    let ghost every = libraries.deep_view();
    let mut games: Vec<Game> = Vec::new();
    let mut seen: Vec<String> = Vec::new();
    let mut i: usize = 0;
    assert(games.deep_view() =~= Seq::empty());
    assert(seen.deep_view() =~= Seq::empty());
    while i < libraries.len()
        invariant
            i <= libraries.len(),
            every == libraries.deep_view(),
            games.deep_view() == library_games(every.take(i as int)),
            seen.deep_view() == seen_keys(every.take(i as int)),
        decreases libraries.len() - i,
    {
        assert(every.take(i + 1).drop_last() =~= every.take(i as int));
        assert(every.take(i + 1).last() == libraries@[i as int].deep_view());
        let library = &libraries[i];
        let key: String = match &library.real_path {
            Some(p) => p.clone(),
            None => library.path.clone(),
        };
        let ghost before = games.deep_view();
        let ghost known = seen.deep_view();
        if !contains_path(&seen, &key) {
            let ghost k = key@;
            seen.push(key);
            assert(seen.deep_view() =~= known.push(k));
            let mut more = games_in_library(library);
            let ghost m = more.deep_view();
            games.append(&mut more);
            assert(games.deep_view() =~= before + m);
        }
        i = i + 1;
    }
    assert(every.take(i as int) =~= every);
    games
}

/// The game that a manifest describes, unless it is one of Steam's own components.
pub open spec fn manifest_game(text: Seq<char>, steamapps: Seq<char>) -> Option<GameModel> {
    match value_in(text, "appid"@) {
        Some(app_id) => match value_in(text, "name"@) {
            Some(name) => if is_plumbing(app_id, name) {
                None
            } else {
                Some(
                    GameModel {
                        name,
                        source: Source::Steam,
                        app_id: Some(app_id),
                        size_on_disk: match value_in(text, "SizeOnDisk"@) {
                            Some(v) => match u64_of(v) {
                                Some(n) => n,
                                None => 0,
                            },
                            None => 0,
                        },
                        last_played: match value_in(text, "LastPlayed"@) {
                            Some(v) => u64_of(v),
                            None => None,
                        },
                        install_dir: match value_in(text, "installdir"@) {
                            Some(d) => Some(join(join(steamapps, "common"@), d)),
                            None => None,
                        },
                    },
                )
            },
            None => None,
        },
        None => None,
    }
}

/// One `appmanifest_NNN.acf`.
///
/// Steam's runtimes and Proton builds live in the same directory as the games and have manifests
/// of the same shape. They are left out: nobody thinks of "Proton - Experimental" as a game.
pub fn parse_app_manifest(text: &str, steamapps: &str) -> (r: Option<Game>)
    ensures
        r.deep_view() == manifest_game(text@, steamapps@),
{
    let app_id = match vdf_value(text, "appid") {
        Some(v) => v,
        None => {
            return None;
        },
    };
    let name = match vdf_value(text, "name") {
        Some(v) => v,
        None => {
            return None;
        },
    };
    if is_steam_plumbing(&app_id, &name) {
        return None;
    }
    let install_dir: Option<String> = match vdf_value(text, "installdir") {
        Some(d) => Some(joined_path(&joined_path(steamapps, "common"), &d)),
        None => None,
    };
    let size_on_disk: u64 = match vdf_value(text, "SizeOnDisk") {
        Some(v) => match read_u64(&chars_of(&v)) {
            Some(n) => n,
            None => 0,
        },
        None => 0,
    };
    let last_played: Option<u64> = match vdf_value(text, "LastPlayed") {
        Some(v) => read_u64(&chars_of(&v)),
        None => None,
    };
    Some(
        Game {
            name,
            source: Source::Steam,
            app_id: Some(app_id),
            size_on_disk,
            last_played,
            install_dir,
        },
    )
}

/// An entry of the library is one of Steam's own components.
pub open spec fn is_plumbing(app_id: Seq<char>, name: Seq<char>) -> bool {
    ||| app_id == "228980"@
    ||| app_id == "1070560"@
    ||| app_id == "1391110"@
    ||| app_id == "1493710"@
    ||| "Proton"@.is_prefix_of(name)
    ||| "Steam Linux Runtime"@.is_prefix_of(name)
    ||| "SteamLinuxRuntime"@.is_prefix_of(name)
    ||| name == "Steamworks Common Redistributables"@
}

/// Steam's own components, which share the library with the games.
pub fn is_steam_plumbing(app_id: &str, name: &str) -> (r: bool)
    ensures
        r == is_plumbing(app_id@, name@),
{
    let id = chars_of(app_id);
    let n = chars_of(name);
    reads(&id, "228980") || reads(&id, "1070560") || reads(&id, "1391110") || reads(
        &id,
        "1493710",
    ) || starts_with(&n, "Proton") || starts_with(&n, "Steam Linux Runtime") || starts_with(
        &n,
        "SteamLinuxRuntime",
    ) || reads(&n, "Steamworks Common Redistributables")
}

/// An app id is one: at least one digit, and nothing else.
pub open spec fn is_app_id(id: Seq<char>) -> bool {
    id.len() > 0 && all_digits(id)
}

fn reads_as_app_id(id: &str) -> (r: bool)
    ensures
        r == is_app_id(id@),
{
    let chars = chars_of(id);
    chars.len() > 0 && only_digits(&chars)
}

/// The covers that Steam may have downloaded for a game below one of its roots, the portrait ones
/// first.
pub open spec fn covers_below(root: Seq<char>, app_id: Seq<char>) -> Seq<Seq<char>> {
    let dir = join(join(root, "appcache/librarycache"@), app_id);
    seq![
        join(dir, "library_600x900.jpg"@),
        join(dir, "library_600x900.png"@),
        join(dir, "header.jpg"@),
    ]
}

/// The covers that Steam may have downloaded for a game.
pub open spec fn covers_of(roots: Seq<Seq<char>>, app_id: Seq<char>) -> Seq<Seq<char>>
    decreases roots.len(),
{
    if roots.len() == 0 {
        Seq::empty()
    } else {
        covers_of(roots.drop_last(), app_id) + covers_below(roots.last(), app_id)
    }
}

/// Where the cover of a game may be: nowhere, unless its app id is one.
pub open spec fn cover_places_of(g: GameModel, roots: Seq<Seq<char>>) -> Seq<Seq<char>> {
    match g.app_id {
        Some(id) => if is_app_id(id) {
            covers_of(roots, id)
        } else {
            Seq::empty()
        },
        None => Seq::empty(),
    }
}

/// Where the cover of a game may be.
pub fn cover_places(game: &Game, roots: &Vec<String>) -> (r: Vec<String>)
    ensures
        r.deep_view() == cover_places_of(game.deep_view(), roots.deep_view()),
{
    let mut out: Vec<String> = Vec::new();
    assert(out.deep_view() =~= Seq::empty());
    if let Some(id) = &game.app_id {
        if reads_as_app_id(id) {
            let ghost every = roots.deep_view();
            let mut i: usize = 0;
            while i < roots.len()
                invariant
                    i <= roots.len(),
                    every == roots.deep_view(),
                    out.deep_view() == covers_of(every.take(i as int), id@),
                decreases roots.len() - i,
            {
                assert(every.take(i + 1).drop_last() =~= every.take(i as int));
                assert(every.take(i + 1).last() == roots@[i as int]@);
                let ghost before = out.deep_view();
                let dir = joined_path(&joined_path(&roots[i], "appcache/librarycache"), id);
                out.push(joined_path(&dir, "library_600x900.jpg"));
                out.push(joined_path(&dir, "library_600x900.png"));
                out.push(joined_path(&dir, "header.jpg"));
                assert(out.deep_view() =~= before + covers_below(every[i as int], id@));
                i = i + 1;
            }
            assert(every.take(i as int) =~= every);
        }
    }
    out
}

/// The cover Steam has already downloaded for a game, given which files exist.
///
/// The portrait cover is what a shelf wants; the wide banner is a fallback.
pub fn cover_art(game: &Game, roots: &Vec<String>, files: &NameSet) -> (r: Option<String>)
    ensures
        r.deep_view() == first_where(
            cover_places_of(game.deep_view(), roots.deep_view()),
            |p: Seq<char>| files@.contains(p),
        ),
{
    let places = cover_places(game, roots);
    let ghost every = places.deep_view();
    let ghost p = |p: Seq<char>| files@.contains(p);
    let mut i: usize = 0;
    while i < places.len()
        invariant
            i <= places.len(),
            every == places.deep_view(),
            every == cover_places_of(game.deep_view(), roots.deep_view()),
            p == (|p: Seq<char>| files@.contains(p)),
            forall|j: int| 0 <= j < i ==> !p(#[trigger] every[j]),
        decreases places.len() - i,
    {
        assert(every[i as int] == places@[i as int]@);
        if files.contains(&places[i]) {
            proof {
                lemma_first_is(every, p, i as int);
            }
            return Some(places[i].clone());
        }
        i = i + 1;
    }
    proof {
        lemma_first_none(every, p);
    }
    None
}

/// What a game is started with: Steam, or whatever opens its links, and the link.
pub open spec fn launch_of(
    g: GameModel,
    steam: Option<Seq<char>>,
    xdg_open: Option<Seq<char>>,
) -> Option<(Seq<char>, Seq<char>)> {
    let binary = if steam is Some {
        steam
    } else {
        xdg_open
    };
    if g.source == Source::Steam && g.app_id is Some && is_app_id(g.app_id->0) && binary is Some {
        Some((binary->0, "steam://rungameid/"@ + g.app_id->0))
    } else {
        None
    }
}

/// Whether this game can be started from here, and with what, given where the commands are.
///
/// Only Steam: `steam://rungameid/<appid>` is a documented URL that Steam itself registers. Lutris
/// and Heroic identify games by an internal id that is not read, and guessing one would start the
/// wrong game.
pub fn launch_command(game: &Game, steam: Option<&str>, xdg_open: Option<&str>) -> (r: Option<
    (String, String),
>)
    ensures
        r.deep_view() == launch_of(game.deep_view(), steam.deep_view(), xdg_open.deep_view()),
{
    match game.source {
        Source::Steam => {},
        _ => {
            return None;
        },
    }
    match &game.app_id {
        Some(id) => {
            if !reads_as_app_id(id) {
                return None;
            }
            let url = cat2("steam://rungameid/", id);
            match steam {
                Some(binary) => Some((String::from_str(binary), url)),
                None => match xdg_open {
                    Some(binary) => Some((String::from_str(binary), url)),
                    None => None,
                },
            }
        },
        None => None,
    }
}

/// The command that starts a game, the program first; an error where it cannot be started from
/// here.
pub fn launch(game: &Game, steam: Option<&str>, xdg_open: Option<&str>) -> (r: Result<
    Vec<String>,
    String,
>)
    ensures
        match launch_of(game.deep_view(), steam.deep_view(), xdg_open.deep_view()) {
            Some((program, url)) => r is Ok && r->Ok_0.deep_view() == seq![program, url],
            None => r is Err && r->Err_0@ == "This game cannot be started from here"@,
        },
{
    match launch_command(game, steam, xdg_open) {
        Some((program, url)) => {
            let ghost expected = seq![program@, url@];
            let mut command: Vec<String> = Vec::new();
            command.push(program);
            command.push(url);
            assert(command.deep_view() =~= expected);
            Ok(command)
        },
        None => Err(String::from_str("This game cannot be started from here")),
    }
}

/// What is reported where a game could not be started.
pub fn launch_failure(game: &Game, error: &str) -> (r: String)
    ensures
        r@ == "Could not start "@ + game.deep_view().name + ": "@ + error@,
{
    crate::text::cat4("Could not start ", &game.name, ": ", error)
}

/// The drive the games live on: the first Steam library when there is one, and the home directory
/// otherwise. What a "how full is it" gauge should be measuring is the filesystem a game download
/// would land in.
pub fn library_root(home: Option<&str>, roots: &Vec<String>, directories: &NameSet) -> (r: String)
    ensures
        r@ == ({
            let own = join(roots.deep_view()[0], "steamapps"@);
            if roots@.len() > 0 && directories@.contains(own) {
                own
            } else {
                match home.deep_view() {
                    Some(h) => h,
                    None => "/"@,
                }
            }
        }),
{
    if roots.len() > 0 {
        assert(roots.deep_view()[0] == roots@[0]@);
        let own = joined_path(&roots[0], "steamapps");
        if directories.contains(&own) {
            return own;
        }
    }
    match home {
        Some(h) => String::from_str(h),
        None => String::from_str("/"),
    }
}

/// The launcher applications this app knows: command, label and icon.
pub open spec fn known_launchers() -> Seq<(&'static str, &'static str, &'static str)> {
    seq![
        ("steam", "Launch Steam", "steam"),
        ("lutris", "Open Lutris", "net.lutris.Lutris"),
        ("heroic", "Open Heroic", "com.heroicgameslauncher.hgl"),
        ("protontricks", "Proton tricks", "application-x-executable"),
    ]
}

/// The launcher applications installed, for the quick-actions list, given the commands found.
pub fn launchers(commands: &NameSet) -> (r: Vec<(&'static str, &'static str, &'static str)>)
    ensures
        r@ == known_launchers().filter(
            |l: (&'static str, &'static str, &'static str)| commands@.contains(l.0@),
        ),
{
    let all: Vec<(&'static str, &'static str, &'static str)> = vec![
        ("steam", "Launch Steam", "steam"),
        ("lutris", "Open Lutris", "net.lutris.Lutris"),
        ("heroic", "Open Heroic", "com.heroicgameslauncher.hgl"),
        ("protontricks", "Proton tricks", "application-x-executable"),
    ];
    let ghost p = |l: (&'static str, &'static str, &'static str)| commands@.contains(l.0@);
    let mut out: Vec<(&'static str, &'static str, &'static str)> = Vec::new();
    let mut i: usize = 0;
    proof {
        reveal(Seq::filter);
    }
    assert(all@ =~= known_launchers());
    while i < all.len()
        invariant
            i <= all.len(),
            all@ == known_launchers(),
            p == (|l: (&'static str, &'static str, &'static str)| commands@.contains(l.0@)),
            out@ == all@.take(i as int).filter(p),
        decreases all.len() - i,
    {
        proof {
            lemma_filter_step(all@, i as int, p);
        }
        let l = all[i];
        if commands.contains(l.0) {
            out.push(l);
        }
        i = i + 1;
    }
    assert(all@.take(i as int) =~= all@);
    out
}

// ---------------------------------------------------------------------------
// Lutris and Heroic
// ---------------------------------------------------------------------------

/// A game of which only the name and the launcher are known.
pub open spec fn bare_game(name: Seq<char>, source: Source) -> GameModel {
    GameModel {
        name,
        source,
        app_id: None,
        size_on_disk: 0,
        last_played: None,
        install_dir: None,
    }
}

/// The game that one of Lutris's files belongs to.
pub open spec fn lutris_game(file: Seq<char>) -> Option<GameModel> {
    match strip_suffix(file, ".yml"@) {
        Some(stem) => match lutris_title(stem) {
            Some(name) => Some(bare_game(name, Source::Lutris)),
            None => None,
        },
        None => None,
    }
}

/// The games that Lutris's files belong to, by their names.
pub fn lutris_games(files: &Vec<String>) -> (r: Vec<Game>)
    ensures
        r.deep_view() == files.deep_view().filter_map(|f: Seq<char>| lutris_game(f)),
{
    let ghost every = files.deep_view();
    let ghost f = |f: Seq<char>| lutris_game(f);
    let suffix = chars_of(".yml");
    let mut out: Vec<Game> = Vec::new();
    let mut i: usize = 0;
    while i < files.len()
        invariant
            i <= files.len(),
            suffix@ == ".yml"@,
            every == files.deep_view(),
            f == (|f: Seq<char>| lutris_game(f)),
            out.deep_view() == every.take(i as int).filter_map(f),
        decreases files.len() - i,
    {
        proof {
            lemma_filter_map_step(every, i as int, f);
            assert(every[i as int] == files@[i as int]@);
        }
        let ghost before = out.deep_view();
        let chars = chars_of(&files[i]);
        if let Some(stem) = before_suffix(&chars, &suffix) {
            if let Some(name) = lutris_name(&string_of(stem)) {
                let ghost n = name@;
                out.push(
                    Game {
                        name,
                        source: Source::Lutris,
                        app_id: None,
                        size_on_disk: 0,
                        last_played: None,
                        install_dir: None,
                    },
                );
                assert(out.deep_view() =~= before.push(bare_game(n, Source::Lutris)));
            }
        }
        i = i + 1;
    }
    assert(every.take(i as int) =~= every);
    out
}

/// The slug in the name of one of Lutris's files: what stands before the trailing id.
pub open spec fn slug_of(stem: Seq<char>) -> Seq<char> {
    match rsplit_once(stem, '-') {
        Some((slug, id)) => if all_digits(id) {
            slug
        } else {
            stem
        },
        None => stem,
    }
}

/// The title that the name of one of Lutris's files stands for.
pub open spec fn lutris_title(stem: Seq<char>) -> Option<Seq<char>> {
    if slug_of(stem).len() == 0 {
        None
    } else {
        Some(titled(slug_of(stem)))
    }
}

/// Lutris names its config files `some-game-1234567890`. The trailing number is an id, not part of
/// the name, and the rest is a slug.
pub fn lutris_name(stem: &str) -> (r: Option<String>)
    ensures
        r.deep_view() == lutris_title(stem@),
{
    let chars = chars_of(stem);
    let slug: &[char] = match cut_last(&chars, '-') {
        Some((slug, id)) => if only_digits(id) {
            slug
        } else {
            &chars
        },
        None => &chars,
    };
    if slug.len() == 0 {
        None
    } else {
        Some(title_case(&string_of(slug)))
    }
}

/// A word with its first letter in upper case.
pub open spec fn capitalised(word: Seq<char>) -> Seq<char> {
    unicode_uppercase(word[0]) + word.skip(1)
}

/// The words of a slug, capitalised.
pub open spec fn title_words(slug: Seq<char>) -> Seq<Seq<char>> {
    split(slug, '-').filter_map(
        |w: Seq<char>|
            if w.len() > 0 {
                Some(capitalised(w))
            } else {
                None
            },
    )
}

/// A slug as a title.
pub open spec fn titled(slug: Seq<char>) -> Seq<char> {
    crate::text::join(title_words(slug), " "@)
}

/// A slug as a title: its words capitalised and set apart by spaces.
pub fn title_case(slug: &str) -> (r: String)
    ensures
        r@ == titled(slug@),
{
    let chars = chars_of(slug);
    let all = pieces(&chars, '-');
    let ghost every = texts(all@);
    let ghost f = |w: Seq<char>|
        if w.len() > 0 {
            Some(capitalised(w))
        } else {
            None
        };
    let mut out: Vec<String> = Vec::new();
    let mut i: usize = 0;
    while i < all.len()
        invariant
            i <= all.len(),
            every == texts(all@),
            every == split(slug@, '-'),
            f == (|w: Seq<char>|
                if w.len() > 0 {
                    Some(capitalised(w))
                } else {
                    None
                }),
            out.deep_view() == every.take(i as int).filter_map(f),
        decreases all.len() - i,
    {
        proof {
            lemma_filter_map_step(every, i as int, f);
            assert(every[i as int] == all@[i as int]@);
        }
        let ghost before = out.deep_view();
        let word = all[i];
        if word.len() > 0 {
            let mut title = uppercase(word[0]);
            let rest = part(word, 1, word.len());
            assert(rest@ =~= word@.skip(1));
            title.append(&string_of(rest));
            let ghost t = title@;
            out.push(title);
            assert(out.deep_view() =~= before.push(t));
        }
        i = i + 1;
    }
    assert(every.take(i as int) =~= every);
    joined(&out, " ")
}

/// The games that Heroic's files list, in the order of the files; one that is not JSON, or could
/// not be read, lists none.
pub open spec fn heroic_list(files: Seq<Option<Seq<char>>>) -> Seq<GameModel>
    decreases files.len(),
{
    if files.len() == 0 {
        Seq::empty()
    } else {
        heroic_list(files.drop_last()) + (match files.last() {
            Some(text) => match json_read(text) {
                Some(value) => heroic_entries(value),
                None => Seq::empty(),
            },
            None => Seq::empty(),
        })
    }
}

/// The games that Heroic's files list.
pub fn heroic_games(files: &Vec<Option<String>>) -> (r: Vec<Game>)
    ensures
        r.deep_view() == heroic_list(files.deep_view()),
{
    let ghost every = files.deep_view();
    let mut games: Vec<Game> = Vec::new();
    let mut i: usize = 0;
    assert(games.deep_view() =~= Seq::empty());
    while i < files.len()
        invariant
            i <= files.len(),
            every == files.deep_view(),
            games.deep_view() == heroic_list(every.take(i as int)),
        decreases files.len() - i,
    {
        assert(every.take(i + 1).drop_last() =~= every.take(i as int));
        assert(every.take(i + 1).last() == files@[i as int].deep_view());
        let ghost before = games.deep_view();
        let mut more: Vec<Game> = Vec::new();
        assert(more.deep_view() =~= Seq::empty());
        if let Some(text) = &files[i] {
            if let Some(value) = read_json(text) {
                more = parse_heroic(&value);
            }
        }
        let ghost m = more.deep_view();
        games.append(&mut more);
        assert(games.deep_view() =~= before + m);
        i = i + 1;
    }
    assert(every.take(i as int) =~= every);
    games
}

/// The game that an entry of Heroic's list describes, where it has a name.
pub open spec fn heroic_entry(entry: JsonModel) -> Option<GameModel> {
    let title = text_in(member(entry, "title"@));
    let app_name = text_in(member(entry, "app_name"@));
    let name = if title is Some {
        title
    } else {
        app_name
    };
    match name {
        Some(n) => Some(
            GameModel {
                name: n,
                source: Source::Heroic,
                app_id: None,
                size_on_disk: match number_in(member(entry, "install_size"@)) {
                    Some(v) => v,
                    None => 0,
                },
                last_played: None,
                install_dir: text_in(member(entry, "install_path"@)),
            },
        ),
        None => None,
    }
}

/// The games that a value lists, in either of the shapes that Heroic writes: an
/// `{"installed": [...]}` list for GOG, and a map of id to entry for Epic.
pub open spec fn heroic_entries(value: JsonModel) -> Seq<GameModel> {
    match list_in(member(value, "installed"@)) {
        Some(list) => list.filter_map(|e: JsonModel| heroic_entry(e)),
        None => match value {
            JsonModel::Object(entries) => entries.filter_map(
                |e: (Seq<char>, JsonModel)| heroic_entry(e.1),
            ),
            _ => Seq::empty(),
        },
    }
}

fn heroic_game(entry: &Json) -> (r: Option<Game>)
    ensures
        r.deep_view() == heroic_entry(entry.model()),
{
    let name: String = match entry.text_at("title") {
        Some(t) => t.clone(),
        None => match entry.text_at("app_name") {
            Some(t) => t.clone(),
            None => {
                return None;
            },
        },
    };
    let size: Option<u64> = match entry.get("install_size") {
        Some(v) => v.number(),
        None => None,
    };
    let install_dir: Option<String> = match entry.text_at("install_path") {
        Some(p) => Some(p.clone()),
        None => None,
    };
    Some(
        Game {
            name,
            source: Source::Heroic,
            app_id: None,
            size_on_disk: match size {
                Some(v) => v,
                None => 0,
            },
            last_played: None,
            install_dir,
        },
    )
}

/// The games that a value lists, in either of the shapes that Heroic writes.
pub fn parse_heroic(value: &Json) -> (r: Vec<Game>)
    ensures
        r.deep_view() == heroic_entries(value.model()),
{
    let mut out: Vec<Game> = Vec::new();
    assert(out.deep_view() =~= Seq::empty());
    let listed: Option<&Vec<Json>> = match value.get("installed") {
        Some(v) => v.list(),
        None => None,
    };
    if let Some(list) = listed {
        let ghost every = models(list@);
        let ghost f = |e: JsonModel| heroic_entry(e);
        let mut i: usize = 0;
        while i < list.len()
            invariant
                i <= list.len(),
                every == models(list@),
                f == (|e: JsonModel| heroic_entry(e)),
                out.deep_view() == every.take(i as int).filter_map(f),
            decreases list.len() - i,
        {
            proof {
                lemma_filter_map_step(every, i as int, f);
                assert(every[i as int] == list@[i as int].model());
            }
            let ghost before = out.deep_view();
            if let Some(game) = heroic_game(&list[i]) {
                let ghost g = game.deep_view();
                out.push(game);
                assert(out.deep_view() =~= before.push(g));
            }
            i = i + 1;
        }
        assert(every.take(i as int) =~= every);
        return out;
    }
    match value {
        Json::Object(entries) => {
            let ghost every = value.model()->Object_0;
            let ghost f = |e: (Seq<char>, JsonModel)| heroic_entry(e.1);
            let mut i: usize = 0;
            while i < entries.len()
                invariant
                    i <= entries.len(),
                    *value == Json::Object(*entries),
                    every == value.model()->Object_0,
                    f == (|e: (Seq<char>, JsonModel)| heroic_entry(e.1)),
                    out.deep_view() == every.take(i as int).filter_map(f),
                decreases entries.len() - i,
            {
                proof {
                    assert(every[i as int] == (
                        entries@[i as int].0@,
                        entries@[i as int].1.model(),
                    ));
                    lemma_filter_map_step(every, i as int, f);
                }
                let ghost before = out.deep_view();
                if let Some(game) = heroic_game(&entries[i].1) {
                    let ghost g = game.deep_view();
                    out.push(game);
                    assert(out.deep_view() =~= before.push(g));
                }
                i = i + 1;
            }
            assert(every.take(i as int) =~= every);
            out
        },
        _ => out,
    }
}

// ---------------------------------------------------------------------------
// The VDF files
// ---------------------------------------------------------------------------

/// The value on a line that holds a quoted key and a quoted value.
pub open spec fn line_value(line: Seq<char>, key: Seq<char>) -> Option<Seq<char>> {
    let parts = split(line, '"');
    if parts.len() >= 4 && parts[1] == key {
        Some(parts[3])
    } else {
        None
    }
}

/// The values under a key, line by line.
pub open spec fn values_in(text: Seq<char>, key: Seq<char>) -> Seq<Seq<char>> {
    lines(text).filter_map(|line: Seq<char>| line_value(line, key))
}

/// The first value under a key.
pub open spec fn value_in(text: Seq<char>, key: Seq<char>) -> Option<Seq<char>> {
    let values = values_in(text, key);
    if values.len() > 0 {
        Some(values[0])
    } else {
        None
    }
}

/// The value of the first `"key" "value"` pair with this key.
pub fn vdf_value(text: &str, key: &str) -> (r: Option<String>)
    ensures
        r.deep_view() == value_in(text@, key@),
{
    let values = vdf_values(text, key);
    if values.len() > 0 {
        assert(values.deep_view()[0] == values@[0]@);
        Some(values[0].clone())
    } else {
        None
    }
}

/// The values of every `"key" "value"` pair with this key, one to a line.
pub fn vdf_values(text: &str, key: &str) -> (r: Vec<String>)
    ensures
        r.deep_view() == values_in(text@, key@),
{
    let chars = chars_of(text);
    let all = lines_of(&chars);
    let ghost every = texts(all@);
    let ghost f = |line: Seq<char>| line_value(line, key@);
    let mut out: Vec<String> = Vec::new();
    let mut i: usize = 0;
    while i < all.len()
        invariant
            i <= all.len(),
            every == texts(all@),
            every == lines(text@),
            f == (|line: Seq<char>| line_value(line, key@)),
            out.deep_view() == every.take(i as int).filter_map(f),
        decreases all.len() - i,
    {
        proof {
            lemma_filter_map_step(every, i as int, f);
            assert(every[i as int] == all@[i as int]@);
        }
        let ghost before = out.deep_view();
        let parts = pieces(all[i], '"');
        if parts.len() >= 4 {
            assert(texts(parts@)[1] == parts@[1]@);
            assert(texts(parts@)[3] == parts@[3]@);
            if reads(parts[1], key) {
                out.push(string_of(parts[3]));
                assert(out.deep_view() =~= before.push(parts@[3]@));
            }
        }
        i = i + 1;
    }
    assert(every.take(i as int) =~= every);
    out
}

// ---------------------------------------------------------------------------
// Launch options
// ---------------------------------------------------------------------------

/// The environment a game should be started in on this machine.
#[derive(Debug, Clone, PartialEq, Eq)]
pub struct LaunchRecipe {
    /// Environment assignments, in the order they should be written.
    pub environment: Vec<(String, String)>,
    /// Wrapper commands, outermost first: `gamemoderun mangohud %command%`.
    pub wrappers: Vec<String>,
    /// One line per thing the recipe does, for the UI to explain itself.
    pub notes: Vec<String>,
}

/// What a recipe says.
#[verifier::ext_equal]
pub struct RecipeModel {
    pub environment: Seq<(Seq<char>, Seq<char>)>,
    pub wrappers: Seq<Seq<char>>,
    pub notes: Seq<Seq<char>>,
}

impl DeepView for LaunchRecipe {
    type V = RecipeModel;

    open spec fn deep_view(&self) -> RecipeModel {
        RecipeModel {
            environment: self.environment.deep_view(),
            wrappers: self.wrappers.deep_view(),
            notes: self.notes.deep_view(),
        }
    }
}

/// The parts of a command line that go before the game.
pub open spec fn recipe_parts(r: RecipeModel) -> Seq<Seq<char>> {
    r.environment.map_values(|e: (Seq<char>, Seq<char>)| e.0 + "="@ + e.1) + r.wrappers
}

/// The string to paste into Steam's launch options.
pub open spec fn steam_options(r: RecipeModel) -> Seq<char> {
    crate::text::join(recipe_parts(r).push("%command%"@), " "@)
}

impl Default for LaunchRecipe {
    fn default() -> (r: LaunchRecipe)
        ensures
            r.deep_view() == (RecipeModel {
                environment: Seq::empty(),
                wrappers: Seq::empty(),
                notes: Seq::empty(),
            }),
    {
        let r = LaunchRecipe {
            environment: Vec::new(),
            wrappers: Vec::new(),
            notes: Vec::new(),
        };
        assert(r.environment.deep_view() =~= Seq::empty());
        assert(r.wrappers.deep_view() =~= Seq::empty());
        assert(r.notes.deep_view() =~= Seq::empty());
        r
    }
}

impl LaunchRecipe {
    fn parts(&self) -> (r: Vec<String>)
        ensures
            r.deep_view() == recipe_parts(self.deep_view()),
    {
        let ghost env = self.environment.deep_view();
        let ghost f = |e: (Seq<char>, Seq<char>)| e.0 + "="@ + e.1;
        let mut out: Vec<String> = Vec::new();
        let mut i: usize = 0;
        while i < self.environment.len()
            invariant
                i <= self.environment.len(),
                env == self.environment.deep_view(),
                f == (|e: (Seq<char>, Seq<char>)| e.0 + "="@ + e.1),
                out.deep_view() == env.take(i as int).map_values(f),
            decreases self.environment.len() - i,
        {
            let ghost before = out.deep_view();
            assert(env[i as int] == (
                self.environment@[i as int].0@,
                self.environment@[i as int].1@,
            ));
            out.push(cat3(&self.environment[i].0, "=", &self.environment[i].1));
            assert(out.deep_view() =~= before.push(f(env[i as int])));
            i = i + 1;
            assert(out.deep_view() =~= env.take(i as int).map_values(f));
        }
        assert(env.take(i as int) =~= env);
        let ghost assignments = out.deep_view();
        let mut k: usize = 0;
        while k < self.wrappers.len()
            invariant
                k <= self.wrappers.len(),
                out.deep_view() == assignments + self.wrappers.deep_view().take(k as int),
            decreases self.wrappers.len() - k,
        {
            let ghost before = out.deep_view();
            out.push(self.wrappers[k].clone());
            assert(out.deep_view() =~= before.push(self.wrappers.deep_view()[k as int]));
            k = k + 1;
            assert(out.deep_view() =~= assignments + self.wrappers.deep_view().take(k as int));
        }
        assert(self.wrappers.deep_view().take(k as int) =~= self.wrappers.deep_view());
        out
    }

    /// The string to paste into Steam's launch options.
    pub fn steam_launch_options(&self) -> (r: String)
        ensures
            r@ == steam_options(self.deep_view()),
    {
        let mut parts = self.parts();
        let ghost before = parts.deep_view();
        parts.push(String::from_str("%command%"));
        assert(parts.deep_view() =~= before.push("%command%"@));
        joined(&parts, " ")
    }

    /// The same thing for a terminal, where the game is a real command.
    pub fn shell_prefix(&self) -> (r: String)
        ensures
            r@ == crate::text::join(recipe_parts(self.deep_view()), " "@),
    {
        joined(&self.parts(), " ")
    }

    pub fn is_empty(&self) -> (r: bool)
        ensures
            r == (self.deep_view().environment.len() == 0 && self.deep_view().wrappers.len() == 0),
    {
        self.environment.len() == 0 && self.wrappers.len() == 0
    }
}

/// What a game is started with on a machine, given what is installed. Only things that apply are
/// in it.
pub open spec fn recipe_of(
    gpus: Seq<GpuModel>,
    installed: spec_fn(Seq<char>) -> bool,
) -> RecipeModel {
    let discrete = first_where(gpus, |g: GpuModel| !g.integrated);
    let offload = hybrid(gpus) && discrete is Some;
    let nvidia = offload && discrete->0.vendor == Vendor::Nvidia;
    RecipeModel {
        environment: if nvidia {
            seq![
                ("__NV_PRIME_RENDER_OFFLOAD"@, "1"@),
                ("__GLX_VENDOR_LIBRARY_NAME"@, "nvidia"@),
                ("__VK_LAYER_NV_optimus"@, "NVIDIA_only"@),
            ]
        } else if offload {
            seq![("DRI_PRIME"@, "1"@)]
        } else {
            Seq::empty()
        },
        wrappers: (if installed("gamemode"@) {
            seq!["gamemoderun"@]
        } else {
            Seq::empty()
        }) + (if installed("mangohud"@) {
            seq!["mangohud"@]
        } else {
            Seq::empty()
        }),
        notes: (if nvidia {
            seq![
                "Runs the game on the NVIDIA card. Without this it lands on the integrated graphics, which works but is several times slower."@,
            ]
        } else if offload {
            seq!["Runs the game on the discrete card rather than the integrated one."@]
        } else {
            Seq::empty()
        }) + (if installed("gamemode"@) {
            seq![
                "Puts the CPU in performance mode while the game runs, and back afterwards."@,
            ]
        } else {
            Seq::empty()
        }) + (if installed("mangohud"@) {
            seq!["Shows frame rate and temperatures in the corner of the game."@]
        } else {
            Seq::empty()
        }),
    }
}

fn pair(key: &str, value: &str) -> (r: (String, String))
    ensures
        r.deep_view() == (key@, value@),
{
    (String::from_str(key), String::from_str(value))
}

/// What a game on this machine should be started with.
///
/// Only things that apply are included. On a desktop with one card there is no offload to set up
/// and the recipe says so by being short.
pub fn launch_recipe<F: Fn(&str) -> bool>(gpus: &[Gpu], installed: &F) -> (r: LaunchRecipe)
    requires
        steady(*installed),
    ensures
        r.deep_view() == recipe_of(cards(gpus@), answers(*installed)),
{
    recipe_for(gpus, &Asking(installed))
}

/// What a game on a machine with these packages should be started with.
pub fn recipe_with(gpus: &[Gpu], installed: &NameSet) -> (r: LaunchRecipe)
    ensures
        r.deep_view() == recipe_of(cards(gpus@), among(installed@)),
{
    recipe_for(gpus, installed)
}

fn recipe_for<Q: Question>(gpus: &[Gpu], installed: &Q) -> (r: LaunchRecipe)
    requires
        installed.open_to_all(),
    ensures
        r.deep_view() == recipe_of(cards(gpus@), installed.yes()),
{
    let mut environment: Vec<(String, String)> = Vec::new();
    let mut wrappers: Vec<String> = Vec::new();
    let mut notes: Vec<String> = Vec::new();
    let ghost all = cards(gpus@);
    let ghost p = |g: GpuModel| !g.integrated;
    if is_hybrid(gpus) {
        let mut i: usize = 0;
        while i < gpus.len() && gpus[i].is_integrated()
            invariant
                i <= gpus.len(),
                all == cards(gpus@),
                p == (|g: GpuModel| !g.integrated),
                forall|j: int| 0 <= j < i ==> !p(#[trigger] all[j]),
            decreases gpus.len() - i,
        {
            assert(all[i as int] == gpus@[i as int].deep_view());
            i = i + 1;
        }
        if i < gpus.len() {
            proof {
                assert(all[i as int] == gpus@[i as int].deep_view());
                lemma_first_is(all, p, i as int);
            }
            match gpus[i].vendor {
                Vendor::Nvidia => {
                    environment.push(pair("__NV_PRIME_RENDER_OFFLOAD", "1"));
                    environment.push(pair("__GLX_VENDOR_LIBRARY_NAME", "nvidia"));
                    environment.push(pair("__VK_LAYER_NV_optimus", "NVIDIA_only"));
                    notes.push(
                        String::from_str(
                            "Runs the game on the NVIDIA card. Without this it lands on the integrated graphics, which works but is several times slower.",
                        ),
                    );
                },
                _ => {
                    environment.push(pair("DRI_PRIME", "1"));
                    notes.push(
                        String::from_str(
                            "Runs the game on the discrete card rather than the integrated one.",
                        ),
                    );
                },
            }
        } else {
            proof {
                lemma_first_none(all, p);
            }
        }
    }
    if installed.put("gamemode") {
        wrappers.push(String::from_str("gamemoderun"));
        notes.push(
            String::from_str(
                "Puts the CPU in performance mode while the game runs, and back afterwards.",
            ),
        );
    }
    if installed.put("mangohud") {
        wrappers.push(String::from_str("mangohud"));
        notes.push(
            String::from_str("Shows frame rate and temperatures in the corner of the game."),
        );
    }
    let recipe = LaunchRecipe { environment, wrappers, notes };
    proof {
        let goal = recipe_of(all, installed.yes());
        assert(recipe.environment.deep_view() =~= goal.environment);
        assert(recipe.wrappers.deep_view() =~= goal.wrappers);
        assert(recipe.notes.deep_view() =~= goal.notes);
    }
    recipe
}

/// Which card a game would land on with no launch options at all.
pub fn default_render_gpu(gpus: &[Gpu]) -> (r: Option<&Gpu>)
    ensures
        match primary_at(cards(gpus@)) {
            Some(i) => r is Some && 0 <= i < gpus@.len() && r->0 == gpus@[i],
            None => r is None,
        },
{
    crate::gpu::primary(gpus)
}

/// The app that launch options are read for, and the options read.
pub type OptionsModel = (Option<Seq<char>>, Map<Seq<char>, Seq<char>>);

/// The quoted parts of a line: every second part that quotes set off.
pub open spec fn quoted_count(line: Seq<char>) -> int {
    split(line, '"').len() as int / 2
}

/// What is read of launch options after one more line. A numeric key on its own starts the block
/// of an app; options belong to the app above them, and blank ones are none.
pub open spec fn after_line(state: OptionsModel, line: Seq<char>) -> OptionsModel {
    let parts = split(line, '"');
    if quoted_count(line) == 1 && all_digits(parts[1]) && parts[1].len() > 0 {
        (Some(parts[1]), state.1)
    } else if quoted_count(line) == 2 && same_but_case(parts[1], "LaunchOptions"@) {
        if state.0 is Some && trim(parts[3]).len() > 0 {
            (state.0, state.1.insert(state.0->0, parts[3]))
        } else {
            state
        }
    } else {
        state
    }
}

/// What is read of launch options from some lines.
pub open spec fn options_from(lines: Seq<Seq<char>>) -> OptionsModel
    decreases lines.len(),
{
    if lines.len() == 0 {
        (None, Map::empty())
    } else {
        after_line(options_from(lines.drop_last()), lines.last())
    }
}

/// The launch options in the text of a `localconfig.vdf`.
pub open spec fn options_in(text: Seq<char>) -> Map<Seq<char>, Seq<char>> {
    options_from(lines(text)).1
}

/// `localconfig.vdf` nests launch options under each app id:
///
/// ```text
/// "440"
/// {
///     "LaunchOptions"  "mangohud %command%"
/// }
/// ```
///
/// The app id is whichever numeric key was seen last before the option.
pub fn parse_launch_options(text: &str) -> (r: TextMap)
    ensures
        r@ == options_in(text@),
{
    let chars = chars_of(text);
    let all = lines_of(&chars);
    let ghost every = texts(all@);
    let mut options = TextMap::new();
    let mut current: Option<String> = None;
    let mut i: usize = 0;
    while i < all.len()
        invariant
            i <= all.len(),
            every == texts(all@),
            every == lines(text@),
            options@ == options_from(every.take(i as int)).1,
            current.deep_view() == options_from(every.take(i as int)).0,
        decreases all.len() - i,
    {
        assert(every.take(i + 1).drop_last() =~= every.take(i as int));
        assert(every.take(i + 1).last() == all@[i as int]@);
        let parts = pieces(all[i], '"');
        let n: usize = parts.len() / 2;
        if n == 1 {
            assert(texts(parts@)[1] == parts@[1]@);
            if only_digits(parts[1]) && parts[1].len() > 0 {
                current = Some(string_of(parts[1]));
            }
        } else if n == 2 {
            assert(texts(parts@)[1] == parts@[1]@);
            assert(texts(parts@)[3] == parts@[3]@);
            if equal_but_case(parts[1], "LaunchOptions") {
                if let Some(app) = &current {
                    if trimmed(parts[3]).len() > 0 {
                        options.insert(app.clone(), string_of(parts[3]));
                    }
                }
            }
        }
        i = i + 1;
    }
    assert(every.take(i as int) =~= every);
    options
}

/// The launch options in some texts; a later one has the last word.
pub open spec fn all_options(texts: Seq<Seq<char>>) -> Map<Seq<char>, Seq<char>>
    decreases texts.len(),
{
    if texts.len() == 0 {
        Map::empty()
    } else {
        all_options(texts.drop_last()).union_prefer_right(options_in(texts.last()))
    }
}

/// Steam's per-game launch options, from the texts of every account's `localconfig.vdf`, so a page
/// can say which games are already set up.
pub fn steam_launch_options(configs: &Vec<String>) -> (r: TextMap)
    ensures
        r@ == all_options(configs.deep_view()),
{
    let ghost every = configs.deep_view();
    let mut options = TextMap::new();
    let mut i: usize = 0;
    while i < configs.len()
        invariant
            i <= configs.len(),
            every == configs.deep_view(),
            options@ == all_options(every.take(i as int)),
        decreases configs.len() - i,
    {
        assert(every.take(i + 1).drop_last() =~= every.take(i as int));
        assert(every.take(i + 1).last() == configs@[i as int]@);
        options.extend(&parse_launch_options(&configs[i]));
        i = i + 1;
    }
    assert(every.take(i as int) =~= every);
    options
}

// ---------------------------------------------------------------------------
// Laws
// ---------------------------------------------------------------------------

/// Only digits reach a command line: whatever a game is started with, its link ends in an app id
/// that is a number, and only Steam's games are started.
pub proof fn only_numbers_reach_a_command_line(
    g: GameModel,
    steam: Option<Seq<char>>,
    xdg_open: Option<Seq<char>>,
)
    requires
        launch_of(g, steam, xdg_open) is Some,
    ensures
        g.source == Source::Steam,
        g.app_id is Some,
        g.app_id->0.len() > 0,
        all_digits(g.app_id->0),
        (launch_of(g, steam, xdg_open)->0).1 == "steam://rungameid/"@ + g.app_id->0,
{
}

/// A game whose app id is no number has no cover.
pub proof fn no_cover_without_a_number(g: GameModel, roots: Seq<Seq<char>>)
    requires
        g.app_id is Some ==> !is_app_id(g.app_id->0),
    ensures
        cover_places_of(g, roots).len() == 0,
{
}

/// A machine with one card, or without an integrated one, needs no offload.
pub proof fn no_offload_without_a_choice(
    gpus: Seq<GpuModel>,
    installed: spec_fn(Seq<char>) -> bool,
)
    requires
        !hybrid(gpus),
    ensures
        recipe_of(gpus, installed).environment.len() == 0,
{
}

/// On a hybrid machine there is always a card to put the game on.
pub proof fn a_hybrid_machine_gets_an_offload(
    gpus: Seq<GpuModel>,
    installed: spec_fn(Seq<char>) -> bool,
)
    requires
        hybrid(gpus),
    ensures
        recipe_of(gpus, installed).environment.len() > 0,
{
    crate::lists::lemma_first_index(gpus, |g: GpuModel| !g.integrated);
}

/// What is pasted into Steam always ends in the placeholder for the game.
pub proof fn options_end_in_the_command(r: RecipeModel)
    ensures
        "%command%"@.is_suffix_of(steam_options(r)),
{
    let parts = recipe_parts(r).push("%command%"@);
    assert(parts.last() == "%command%"@);
    let whole = crate::text::join(parts, " "@);
    if parts.len() > 1 {
        let head = crate::text::join(parts.drop_last(), " "@) + " "@;
        assert(whole == head + "%command%"@);
        assert(whole.subrange(whole.len() - "%command%"@.len(), whole.len() as int) =~= "%command%"@);
    } else {
        assert(whole == "%command%"@);
        assert(whole.subrange(0, whole.len() as int) =~= whole);
    }
}

/// The performance wrapper stands outside the overlay: where both are installed, the game runs in
/// `gamemoderun mangohud`.
pub proof fn gamemode_is_outermost(gpus: Seq<GpuModel>, installed: spec_fn(Seq<char>) -> bool)
    requires
        installed("gamemode"@),
        installed("mangohud"@),
    ensures
        recipe_of(gpus, installed).wrappers == seq!["gamemoderun"@, "mangohud"@],
{
    assert(recipe_of(gpus, installed).wrappers =~= seq!["gamemoderun"@, "mangohud"@]);
}

/// Steam's own components are never games.
pub proof fn plumbing_is_no_game(text: Seq<char>, steamapps: Seq<char>)
    requires
        value_in(text, "appid"@) is Some,
        value_in(text, "name"@) is Some,
        is_plumbing(value_in(text, "appid"@)->0, value_in(text, "name"@)->0),
    ensures
        manifest_game(text, steamapps) is None,
{
}

/// Games can be ranked: of two one comes no later, and the order is transitive.
pub proof fn games_can_be_ranked()
    ensures
        ranks(|a: GameModel, b: GameModel| <Game as Ranked>::le(a, b)),
{
    let le = |a: GameModel, b: GameModel| <Game as Ranked>::le(a, b);
    assert forall|a: GameModel, b: GameModel| #[trigger] le(a, b) || le(b, a) by {
        text_le_total(unicode_lowercase(a.name), unicode_lowercase(b.name));
    }
    assert forall|a: GameModel, b: GameModel, c: GameModel| #[trigger]
        le(a, b) && #[trigger] le(b, c) implies le(a, c) by {
        if played(a) == played(b) && played(b) == played(c) {
            text_le_transitive(
                unicode_lowercase(a.name),
                unicode_lowercase(b.name),
                unicode_lowercase(c.name),
            );
        }
    }
}

/// The list of games holds every game that was found and no other, the one played last first, and
/// games played at the same moment, or never, by name.
pub proof fn the_last_played_comes_first(found: Seq<GameModel>)
    ensures
        by_rank::<Game>(found).to_multiset() == found.to_multiset(),
        forall|i: int, j: int|
            0 <= i < j < by_rank::<Game>(found).len() ==> {
                let a = #[trigger] by_rank::<Game>(found)[i];
                let b = #[trigger] by_rank::<Game>(found)[j];
                played(a) > played(b) || (played(a) == played(b) && text_le(
                    unicode_lowercase(a.name),
                    unicode_lowercase(b.name),
                ))
            },
{
    let le = |a: GameModel, b: GameModel| <Game as Ranked>::le(a, b);
    games_can_be_ranked();
    sorting_orders(found, le);
    let out = by_rank::<Game>(found);
    assert(in_order(out, le));
    assert forall|i: int, j: int| 0 <= i < j < out.len() implies {
        let a = #[trigger] out[i];
        let b = #[trigger] out[j];
        played(a) > played(b) || (played(a) == played(b) && text_le(
            unicode_lowercase(a.name),
            unicode_lowercase(b.name),
        ))
    } by {
        assert(le(out[i], out[j]));
    }
}

proof fn lemma_every_key_is_seen(libraries: Seq<LibraryModel>, i: int)
    requires
        0 <= i < libraries.len(),
    ensures
        has_path(seen_keys(libraries), library_key(libraries[i])),
    decreases libraries.len(),
{
    let rest = seen_keys(libraries.drop_last());
    let key = library_key(libraries.last());
    let seen = seen_keys(libraries);
    if i == libraries.len() - 1 {
        if !has_path(rest, key) {
            assert(same_path(seen[rest.len() as int], key));
        }
    } else {
        lemma_every_key_is_seen(libraries.drop_last(), i);
        assert(libraries.drop_last()[i] == libraries[i]);
        let k = choose|k: int|
            0 <= k < rest.len() && same_path(#[trigger] rest[k], library_key(libraries[i]));
        assert(same_path(seen[k], library_key(libraries[i])));
    }
}

/// A library that was found before, under whatever name, adds no game.
pub proof fn a_library_found_twice_is_read_once(
    libraries: Seq<LibraryModel>,
    again: LibraryModel,
    i: int,
)
    requires
        0 <= i < libraries.len(),
        same_path(library_key(libraries[i]), library_key(again)),
    ensures
        library_games(libraries.push(again)) == library_games(libraries),
{
    lemma_every_key_is_seen(libraries, i);
    let seen = seen_keys(libraries);
    let k = choose|k: int|
        0 <= k < seen.len() && same_path(#[trigger] seen[k], library_key(libraries[i]));
    assert(same_path(seen[k], library_key(again)));
    assert(libraries.push(again).drop_last() =~= libraries);
}

proof fn lemma_libraries_differ(
    start: Seq<Seq<char>>,
    paths: Seq<Seq<char>>,
    directories: Set<Seq<char>>,
)
    requires
        start.len() == 1,
    ensures
        with_libraries(start, paths, directories).len() > 0,
        with_libraries(start, paths, directories)[0] == start[0],
        forall|i: int, j: int|
            0 <= i < j < with_libraries(start, paths, directories).len() ==> !same_path(
                #[trigger] with_libraries(start, paths, directories)[i],
                #[trigger] with_libraries(start, paths, directories)[j],
            ),
    decreases paths.len(),
{
    if paths.len() > 0 {
        lemma_libraries_differ(start, paths.drop_last(), directories);
    }
}

/// Steam's own directory of games is always the first of its libraries, and no library is listed
/// twice.
pub proof fn libraries_are_listed_once(
    root: Seq<char>,
    vdf: Option<Seq<char>>,
    directories: Set<Seq<char>>,
)
    ensures
        libraries_of(root, vdf, directories).len() > 0,
        libraries_of(root, vdf, directories)[0] == join(root, "steamapps"@),
        forall|i: int, j: int|
            0 <= i < j < libraries_of(root, vdf, directories).len() ==> !same_path(
                #[trigger] libraries_of(root, vdf, directories)[i],
                #[trigger] libraries_of(root, vdf, directories)[j],
            ),
{
    if vdf is Some {
        lemma_libraries_differ(
            seq![join(root, "steamapps"@)],
            values_in(vdf->0, "path"@),
            directories,
        );
    }
}

/// A line is made up of something, a quoted key, something more and a quoted value: no quotation mark
/// stands in any of them but round the key and the value, and what follows the value, where anything
/// does, begins with the mark that closes it.
pub open spec fn is_made_of(
    line: Seq<char>,
    before: Seq<char>,
    key: Seq<char>,
    between: Seq<char>,
    value: Seq<char>,
    after: Seq<char>,
) -> bool {
    &&& line == before.push('"') + key.push('"') + between.push('"') + value + after
    &&& !before.contains('"') && !key.contains('"') && !between.contains('"') && !value.contains('"')
    &&& after.len() > 0 ==> after[0] == '"'
}

/// A line pairs a quoted key with a quoted value.
pub open spec fn pairs(line: Seq<char>, key: Seq<char>, value: Seq<char>) -> bool {
    exists|before: Seq<char>, between: Seq<char>, after: Seq<char>| #[trigger]
        is_made_of(line, before, key, between, value, after)
}

/// A pair is read from a line exactly where the line is made up of one.
pub proof fn a_pair_is_read_from_its_line(line: Seq<char>, key: Seq<char>, value: Seq<char>)
    ensures
        line_value(line, key) == Some(value) <==> pairs(line, key, value),
{
    let parts = split(line, '"');
    let mark = seq!['"'];
    if line_value(line, key) == Some(value) {
        crate::text::parts_make_up_the_text(line, '"');
        let (p0, p1, p2, p3) = (parts[0], parts[1], parts[2], parts[3]);
        let r1 = parts.skip(1);
        let r2 = parts.skip(2);
        let r3 = parts.skip(3);
        assert(parts =~= seq![p0] + r1);
        assert(r1 =~= seq![p1] + r2);
        assert(r2 =~= seq![p2] + r3);
        crate::text::lemma_join_first(p0, r1, mark);
        crate::text::lemma_join_first(p1, r2, mark);
        crate::text::lemma_join_first(p2, r3, mark);
        let after = if parts.len() == 4 {
            Seq::empty()
        } else {
            mark + crate::text::join(parts.skip(4), mark)
        };
        if parts.len() == 4 {
            assert(r3 =~= seq![p3]);
            assert(crate::text::join(r3, mark) == p3);
        } else {
            assert(r3 =~= seq![p3] + parts.skip(4));
            crate::text::lemma_join_first(p3, parts.skip(4), mark);
        }
        assert(line =~= p0.push('"') + p1.push('"') + p2.push('"') + p3 + after);
        assert(is_made_of(line, p0, key, p2, value, after));
    }
    if pairs(line, key, value) {
        let (before, between, after) = choose|
            before: Seq<char>,
            between: Seq<char>,
            after: Seq<char>,
        | #[trigger]
            is_made_of(line, before, key, between, value, after);
        let s3 = value + after;
        let s2 = between.push('"') + s3;
        let s1 = key.push('"') + s2;
        assert(line =~= before.push('"') + s1);
        crate::text::parts_come_apart(before, '"', s1);
        crate::text::parts_come_apart(key, '"', s2);
        crate::text::parts_come_apart(between, '"', s3);
        if after.len() == 0 {
            assert(s3 =~= value);
            crate::text::parts_come_apart(value, '"', after);
        } else {
            assert(s3 =~= value.push('"') + after.skip(1));
            crate::text::parts_come_apart(value, '"', after.skip(1));
        }
        assert(split(s3, '"')[0] == value);
        assert(parts =~= seq![before, key, between] + split(s3, '"'));
        assert(parts[3] == split(s3, '"')[0]);
    }
}

/// A line of a text pairs a key with a value, and no line before it pairs the key with anything.
pub open spec fn says(text: Seq<char>, key: Seq<char>, value: Seq<char>) -> bool {
    exists|i: int|
        0 <= i < lines(text).len() && pairs(#[trigger] lines(text)[i], key, value) && forall|
            j: int,
            other: Seq<char>,
        |
            0 <= j < i ==> !#[trigger] pairs(lines(text)[j], key, other)
}

/// No line of a text pairs a key with anything.
pub open spec fn is_silent_on(text: Seq<char>, key: Seq<char>) -> bool {
    forall|j: int, other: Seq<char>|
        0 <= j < lines(text).len() ==> !#[trigger] pairs(lines(text)[j], key, other)
}

/// The value under a key is the one that the first line with the key pairs it with; there is none
/// where no line has the key.
pub proof fn the_first_pair_counts(text: Seq<char>, key: Seq<char>)
    ensures
        forall|value: Seq<char>| #[trigger] says(text, key, value) ==> value_in(text, key) == Some(value),
        is_silent_on(text, key) ==> value_in(text, key) is None,
{
    let all = lines(text);
    let f = |line: Seq<char>| line_value(line, key);
    assert forall|value: Seq<char>| #[trigger] says(text, key, value) implies value_in(text, key)
        == Some(value) by {
        let i = choose|i: int|
            0 <= i < all.len() && pairs(#[trigger] all[i], key, value) && forall|
                j: int,
                other: Seq<char>,
            |
                0 <= j < i ==> !#[trigger] pairs(all[j], key, other);
        a_pair_is_read_from_its_line(all[i], key, value);
        assert forall|j: int| 0 <= j < i implies f(#[trigger] all[j]) is None by {
            if f(all[j]) is Some {
                a_pair_is_read_from_its_line(all[j], key, f(all[j])->0);
            }
        }
        crate::lists::lemma_first_picked(all, f, i);
    }
    if is_silent_on(text, key) {
        assert forall|j: int| 0 <= j < all.len() implies f(#[trigger] all[j]) is None by {
            if f(all[j]) is Some {
                a_pair_is_read_from_its_line(all[j], key, f(all[j])->0);
            }
        }
        crate::lists::lemma_none_picked(all, f);
    }
}

/// What a manifest says is what is known of its game: the name and the app id as they are written,
/// the size and the time it was last played as the numbers that are written, and the directory it is
/// installed in among the games of the library. What the manifest does not say is not made up.
pub proof fn a_manifest_is_taken_at_its_word(
    text: Seq<char>,
    steamapps: Seq<char>,
    id: Seq<char>,
    name: Seq<char>,
)
    requires
        says(text, "appid"@, id),
        says(text, "name"@, name),
        id != "228980"@ && id != "1070560"@ && id != "1391110"@ && id != "1493710"@,
        !"Proton"@.is_prefix_of(name),
        !"Steam Linux Runtime"@.is_prefix_of(name),
        !"SteamLinuxRuntime"@.is_prefix_of(name),
        name != "Steamworks Common Redistributables"@,
    ensures
        manifest_game(text, steamapps) is Some,
        manifest_game(text, steamapps)->0.name == name,
        manifest_game(text, steamapps)->0.app_id == Some(id),
        manifest_game(text, steamapps)->0.source == Source::Steam,
        forall|v: Seq<char>| #[trigger]
            says(text, "LastPlayed"@, v) ==> manifest_game(text, steamapps)->0.last_played
                == u64_of(v),
        is_silent_on(text, "LastPlayed"@) ==> manifest_game(text, steamapps)->0.last_played is None,
        forall|v: Seq<char>| #[trigger]
            says(text, "SizeOnDisk"@, v) && u64_of(v) is Some ==> manifest_game(
                text,
                steamapps,
            )->0.size_on_disk == u64_of(v)->0,
        forall|v: Seq<char>| #[trigger]
            says(text, "SizeOnDisk"@, v) && u64_of(v) is None ==> manifest_game(
                text,
                steamapps,
            )->0.size_on_disk == 0,
        is_silent_on(text, "SizeOnDisk"@) ==> manifest_game(text, steamapps)->0.size_on_disk == 0,
        forall|d: Seq<char>| #[trigger]
            says(text, "installdir"@, d) ==> manifest_game(text, steamapps)->0.install_dir == Some(
                join(join(steamapps, "common"@), d),
            ),
        is_silent_on(text, "installdir"@) ==> manifest_game(text, steamapps)->0.install_dir is None,
{
    the_first_pair_counts(text, "appid"@);
    the_first_pair_counts(text, "name"@);
    the_first_pair_counts(text, "LastPlayed"@);
    the_first_pair_counts(text, "SizeOnDisk"@);
    the_first_pair_counts(text, "installdir"@);
}

/// A manifest without an app id or a name is no game's, and neither is one of Steam's own runtimes,
/// Proton builds and redistributables.
pub proof fn what_is_no_game_is_left_out(
    text: Seq<char>,
    steamapps: Seq<char>,
    id: Seq<char>,
    name: Seq<char>,
)
    ensures
        is_silent_on(text, "appid"@) || is_silent_on(text, "name"@) ==> manifest_game(text, steamapps)
            is None,
        says(text, "appid"@, id) && (id == "228980"@ || id == "1070560"@ || id == "1391110"@ || id
            == "1493710"@) ==> manifest_game(text, steamapps) is None,
        says(text, "name"@, name) && ("Proton"@.is_prefix_of(name) || "Steam Linux Runtime"@.is_prefix_of(
            name,
        ) || "SteamLinuxRuntime"@.is_prefix_of(name) || name == "Steamworks Common Redistributables"@)
            ==> manifest_game(text, steamapps) is None,
{
    the_first_pair_counts(text, "appid"@);
    the_first_pair_counts(text, "name"@);
}

/// Only files that are named as manifests are describe games, and every one that describes a game is
/// listed with the library it stands in.
pub proof fn every_manifest_is_read(l: LibraryModel, g: GameModel)
    ensures
        games_in(l).contains(g) <==> exists|i: int|
            0 <= i < l.files.len() && "appmanifest_"@.is_prefix_of((#[trigger] l.files[i]).0)
                && l.files[i].1 is Some && manifest_game(l.files[i].1->0, l.path) == Some(g),
{
    let f = |f: (Seq<char>, Option<Seq<char>>)| game_in_file(f, l.path);
    crate::lists::lemma_picked(l.files, f, g);
    if games_in(l).contains(g) {
        let i = choose|i: int| 0 <= i < l.files.len() && f(#[trigger] l.files[i]) == Some(g);
        assert(manifest_game(l.files[i].1->0, l.path) == Some(g));
    }
    if exists|i: int|
        0 <= i < l.files.len() && "appmanifest_"@.is_prefix_of((#[trigger] l.files[i]).0)
            && l.files[i].1 is Some && manifest_game(l.files[i].1->0, l.path) == Some(g) {
        let i = choose|i: int|
            0 <= i < l.files.len() && "appmanifest_"@.is_prefix_of((#[trigger] l.files[i]).0)
                && l.files[i].1 is Some && manifest_game(l.files[i].1->0, l.path) == Some(g);
        assert(f(l.files[i]) == Some(g));
    }
}

/// Libraries with the same real path are one library, and its games are listed once; a library that
/// has no real path in common with those before it adds its games behind theirs.
pub proof fn libraries_are_told_by_their_real_path(
    libraries: Seq<LibraryModel>,
    next: LibraryModel,
    place: Seq<char>,
)
    requires
        next.real_path == Some(place),
    ensures
        (exists|i: int|
            0 <= i < libraries.len() && (#[trigger] libraries[i]).real_path is Some && same_path(
                libraries[i].real_path->0,
                place,
            )) ==> library_games(libraries.push(next)) == library_games(libraries),
        (forall|i: int|
            0 <= i < libraries.len() ==> (#[trigger] libraries[i]).real_path is Some && !same_path(
                libraries[i].real_path->0,
                place,
            )) ==> library_games(libraries.push(next)) == library_games(libraries) + games_in(next),
{
    assert(libraries.push(next).drop_last() =~= libraries);
    assert(libraries.push(next).last() == next);
    if exists|i: int|
        0 <= i < libraries.len() && (#[trigger] libraries[i]).real_path is Some && same_path(
            libraries[i].real_path->0,
            place,
        ) {
        let i = choose|i: int|
            0 <= i < libraries.len() && (#[trigger] libraries[i]).real_path is Some && same_path(
                libraries[i].real_path->0,
                place,
            );
        a_library_found_twice_is_read_once(libraries, next, i);
    }
    if forall|i: int|
        0 <= i < libraries.len() ==> (#[trigger] libraries[i]).real_path is Some && !same_path(
            libraries[i].real_path->0,
            place,
        ) {
        lemma_keys_come_from_libraries(libraries);
        let keys = seen_keys(libraries);
        if has_path(keys, place) {
            let k = choose|k: int| 0 <= k < keys.len() && same_path(#[trigger] keys[k], place);
            let i = choose|i: int|
                0 <= i < libraries.len() && library_key(#[trigger] libraries[i]) == keys[k];
            assert(libraries[i].real_path is Some);
        }
    }
}

proof fn lemma_keys_come_from_libraries(libraries: Seq<LibraryModel>)
    ensures
        forall|k: int|
            0 <= k < seen_keys(libraries).len() ==> exists|i: int|
                0 <= i < libraries.len() && library_key(#[trigger] libraries[i]) == #[trigger] seen_keys(
                    libraries,
                )[k],
    decreases libraries.len(),
{
    if libraries.len() > 0 {
        let init = libraries.drop_last();
        lemma_keys_come_from_libraries(init);
        assert forall|k: int| 0 <= k < seen_keys(libraries).len() implies exists|i: int|
            0 <= i < libraries.len() && library_key(#[trigger] libraries[i]) == #[trigger] seen_keys(
                libraries,
            )[k] by {
            if k < seen_keys(init).len() {
                assert(seen_keys(libraries)[k] == seen_keys(init)[k]);
                let i = choose|i: int|
                    0 <= i < init.len() && library_key(#[trigger] init[i]) == seen_keys(init)[k];
                assert(library_key(libraries[i]) == seen_keys(libraries)[k]);
            } else {
                assert(library_key(libraries[libraries.len() - 1]) == seen_keys(libraries)[k]);
            }
        }
    }
}

/// Every drive that Steam's list names a path on is a library, where it has a directory of games, and
/// no other is: each library but Steam's own is the `steamapps` directory below a listed path.
pub proof fn every_listed_drive_is_a_library(
    root: Seq<char>,
    text: Seq<char>,
    directories: Set<Seq<char>>,
    i: int,
    path: Seq<char>,
)
    requires
        0 <= i < lines(text).len(),
        pairs(lines(text)[i], "path"@, path),
        directories.contains(join(path, "steamapps"@)),
    ensures
        has_path(libraries_of(root, Some(text), directories), join(path, "steamapps"@)),
{
    let f = |line: Seq<char>| line_value(line, "path"@);
    a_pair_is_read_from_its_line(lines(text)[i], "path"@, path);
    crate::lists::lemma_picked(lines(text), f, path);
    assert(f(lines(text)[i]) == Some(path));
    let paths = values_in(text, "path"@);
    assert(paths.contains(path));
    let k = choose|k: int| 0 <= k < paths.len() && paths[k] == path;
    lemma_listed(seq![join(root, "steamapps"@)], paths, directories, k);
}

proof fn lemma_has_more(a: Seq<Seq<char>>, x: Seq<char>, path: Seq<char>)
    requires
        has_path(a, path),
    ensures
        has_path(a.push(x), path),
{
    let k = choose|k: int| 0 <= k < a.len() && same_path(#[trigger] a[k], path);
    assert(same_path(a.push(x)[k], path));
}

proof fn lemma_listed(
    start: Seq<Seq<char>>,
    paths: Seq<Seq<char>>,
    directories: Set<Seq<char>>,
    k: int,
)
    requires
        0 <= k < paths.len(),
        directories.contains(join(paths[k], "steamapps"@)),
    ensures
        has_path(with_libraries(start, paths, directories), join(paths[k], "steamapps"@)),
    decreases paths.len(),
{
    let rest = with_libraries(start, paths.drop_last(), directories);
    let candidate = join(paths.last(), "steamapps"@);
    if k < paths.len() - 1 {
        lemma_listed(start, paths.drop_last(), directories, k);
        if directories.contains(candidate) && !has_path(rest, candidate) {
            lemma_has_more(rest, candidate, join(paths[k], "steamapps"@));
        }
    } else if !has_path(rest, candidate) {
        crate::path::a_path_is_itself(candidate);
        assert(same_path(rest.push(candidate)[rest.len() as int], candidate));
    }
}

/// Nothing is a library but Steam's own directory of games and those below the paths of its list.
pub proof fn nothing_else_is_a_library(
    root: Seq<char>,
    text: Seq<char>,
    directories: Set<Seq<char>>,
    k: int,
)
    requires
        0 <= k < libraries_of(root, Some(text), directories).len(),
    ensures
        libraries_of(root, None, directories) == seq![join(root, "steamapps"@)],
        libraries_of(root, Some(text), directories)[k] == join(root, "steamapps"@) || exists|
            i: int,
            path: Seq<char>,
        |
            0 <= i < lines(text).len() && #[trigger] pairs(lines(text)[i], "path"@, path)
                && libraries_of(root, Some(text), directories)[k] == join(path, "steamapps"@)
                && directories.contains(join(path, "steamapps"@)),
{
    let own = seq![join(root, "steamapps"@)];
    let paths = values_in(text, "path"@);
    let all = with_libraries(own, paths, directories);
    lemma_libraries_are_listed(own, paths, directories, k);
    if all[k] != own[0] {
        let m = choose|m: int|
            0 <= m < paths.len() && all[k] == join(#[trigger] paths[m], "steamapps"@)
                && directories.contains(join(paths[m], "steamapps"@));
        let f = |line: Seq<char>| line_value(line, "path"@);
        crate::lists::lemma_picked(lines(text), f, paths[m]);
        assert(paths.contains(paths[m]));
        let i = choose|i: int| 0 <= i < lines(text).len() && f(#[trigger] lines(text)[i]) == Some(paths[m]);
        a_pair_is_read_from_its_line(lines(text)[i], "path"@, paths[m]);
        assert(pairs(lines(text)[i], "path"@, paths[m]));
    }
}

proof fn lemma_libraries_are_listed(
    start: Seq<Seq<char>>,
    paths: Seq<Seq<char>>,
    directories: Set<Seq<char>>,
    k: int,
)
    requires
        start.len() == 1,
        0 <= k < with_libraries(start, paths, directories).len(),
    ensures
        with_libraries(start, paths, directories)[k] == start[0] || exists|m: int|
            0 <= m < paths.len() && with_libraries(start, paths, directories)[k] == join(
                #[trigger] paths[m],
                "steamapps"@,
            ) && directories.contains(join(paths[m], "steamapps"@)),
    decreases paths.len(),
{
    if paths.len() > 0 {
        let init = paths.drop_last();
        let rest = with_libraries(start, init, directories);
        let all = with_libraries(start, paths, directories);
        if k < rest.len() {
            lemma_libraries_are_listed(start, init, directories, k);
            assert(all[k] == rest[k]);
            if rest[k] != start[0] {
                let m = choose|m: int|
                    0 <= m < init.len() && rest[k] == join(#[trigger] init[m], "steamapps"@)
                        && directories.contains(join(init[m], "steamapps"@));
                assert(all[k] == join(paths[m], "steamapps"@));
            }
        } else {
            assert(all[k] == join(paths[paths.len() - 1], "steamapps"@));
        }
    }
}

/// Steam is looked for where it puts itself: in the home directory's data, behind its own links, and
/// inside Flatpak's directory. Each of these places that has a directory of games is one of its
/// roots, in that order, and no other place is.
pub proof fn steam_is_found_where_it_is(home: Seq<char>, directories: Set<Seq<char>>, root: Seq<char>)
    ensures
        roots_of(Some(home), directories).contains(root) <==> directories.contains(
            join(root, "steamapps"@),
        ) && (root == join(home, ".local/share/Steam"@) || root == join(home, ".steam/steam"@) || root
            == join(home, ".steam/root"@) || root == join(
            home,
            ".var/app/com.valvesoftware.Steam/.local/share/Steam"@,
        )),
        directories.contains(join(join(home, ".local/share/Steam"@), "steamapps"@)) ==> roots_of(
            Some(home),
            directories,
        )[0] == join(home, ".local/share/Steam"@),
        roots_of(None, directories).len() == 0,
{
    let p = |p: Seq<char>| directories.contains(join(p, "steamapps"@));
    let all = steam_places(home);
    crate::lists::lemma_filter_members(all, p);
    assert(all[0] == join(home, ".local/share/Steam"@));
    assert(all[1] == join(home, ".steam/steam"@));
    assert(all[2] == join(home, ".steam/root"@));
    assert(all[3] == join(home, ".var/app/com.valvesoftware.Steam/.local/share/Steam"@));
    if p(all[0]) {
        let first = all.take(1);
        let rest = all.skip(1);
        assert(all =~= first + rest);
        Seq::filter_distributes_over_add(first, rest, p);
        reveal(Seq::filter);
        assert(first.drop_last() =~= Seq::empty());
        assert(first.filter(p) =~= seq![all[0]]);
    }
}

/// A game's cover is looked for below each root in turn, in the directory of Steam's cache that is
/// named by its app id: the portrait cover first, and the wide banner last.
pub proof fn covers_are_looked_for_in_order(g: GameModel, roots: Seq<Seq<char>>, k: int, id: Seq<char>)
    requires
        g.app_id == Some(id),
        id.len() > 0,
        all_digits(id),
        0 <= k < roots.len(),
    ensures
        cover_places_of(g, roots).len() == 3 * roots.len(),
        cover_places_of(g, roots)[3 * k] == join(
            join(join(roots[k], "appcache/librarycache"@), id),
            "library_600x900.jpg"@,
        ),
        cover_places_of(g, roots)[3 * k + 1] == join(
            join(join(roots[k], "appcache/librarycache"@), id),
            "library_600x900.png"@,
        ),
        cover_places_of(g, roots)[3 * k + 2] == join(
            join(join(roots[k], "appcache/librarycache"@), id),
            "header.jpg"@,
        ),
    decreases roots.len(),
{
    let init = roots.drop_last();
    lemma_three_covers_each(init, id);
    if k < init.len() {
        covers_are_looked_for_in_order(g, init, k, id);
    }
}

proof fn lemma_three_covers_each(roots: Seq<Seq<char>>, id: Seq<char>)
    ensures
        covers_of(roots, id).len() == 3 * roots.len(),
    decreases roots.len(),
{
    if roots.len() > 0 {
        lemma_three_covers_each(roots.drop_last(), id);
    }
}

/// A game can be started from here exactly where it is one of Steam's, its app id is a number, and
/// Steam or whatever opens its links is there; Steam itself is preferred.
pub proof fn steam_games_can_be_started(
    g: GameModel,
    steam: Option<Seq<char>>,
    xdg_open: Option<Seq<char>>,
)
    ensures
        launch_of(g, steam, xdg_open) is Some <==> g.source == Source::Steam && g.app_id is Some
            && g.app_id->0.len() > 0 && all_digits(g.app_id->0) && (steam is Some || xdg_open is Some),
        launch_of(g, steam, xdg_open) is Some && steam is Some ==> (launch_of(g, steam, xdg_open)->0).0
            == steam->0,
        launch_of(g, steam, xdg_open) is Some && steam is None ==> (launch_of(g, steam, xdg_open)->0).0
            == xdg_open->0,
{
}

/// A machine renders on its built-in graphics unless told otherwise. Where it has a discrete card too,
/// a game is told to use the first of those: one of NVIDIA's by NVIDIA's own three variables, and any
/// other by Mesa's one. Where there is no such choice nothing is set.
pub proof fn a_game_is_put_on_the_discrete_card(
    gpus: Seq<GpuModel>,
    installed: spec_fn(Seq<char>) -> bool,
    i: int,
    k: int,
)
    requires
        0 <= i < gpus.len(),
        !gpus[i].integrated,
        forall|j: int| 0 <= j < i ==> (#[trigger] gpus[j]).integrated,
        0 <= k < gpus.len(),
        gpus[k].integrated,
    ensures
        gpus[i].vendor == Vendor::Nvidia ==> recipe_of(gpus, installed).environment == seq![
            ("__NV_PRIME_RENDER_OFFLOAD"@, "1"@),
            ("__GLX_VENDOR_LIBRARY_NAME"@, "nvidia"@),
            ("__VK_LAYER_NV_optimus"@, "NVIDIA_only"@),
        ],
        gpus[i].vendor != Vendor::Nvidia ==> recipe_of(gpus, installed).environment == seq![
            ("DRI_PRIME"@, "1"@),
        ],
{
    let p = |g: GpuModel| !g.integrated;
    lemma_first_is(gpus, p, i);
    assert(hybrid(gpus));
}

/// Where every card is built in, or none is, no game is told which card to use.
pub proof fn without_a_choice_nothing_is_set(
    gpus: Seq<GpuModel>,
    installed: spec_fn(Seq<char>) -> bool,
)
    requires
        (forall|i: int| 0 <= i < gpus.len() ==> (#[trigger] gpus[i]).integrated) || (forall|i: int|
            0 <= i < gpus.len() ==> !(#[trigger] gpus[i]).integrated),
    ensures
        recipe_of(gpus, installed).environment == Seq::<(Seq<char>, Seq<char>)>::empty(),
{
}

/// A wrapper goes round a game exactly where its package is installed, whatever the cards are.
pub proof fn only_what_is_installed_wraps_a_game(
    gpus: Seq<GpuModel>,
    installed: spec_fn(Seq<char>) -> bool,
)
    ensures
        installed("gamemode"@) && installed("mangohud"@) ==> recipe_of(gpus, installed).wrappers
            == seq!["gamemoderun"@, "mangohud"@],
        installed("gamemode"@) && !installed("mangohud"@) ==> recipe_of(gpus, installed).wrappers
            == seq!["gamemoderun"@],
        !installed("gamemode"@) && installed("mangohud"@) ==> recipe_of(gpus, installed).wrappers
            == seq!["mangohud"@],
        !installed("gamemode"@) && !installed("mangohud"@) ==> recipe_of(gpus, installed).wrappers
            == Seq::<Seq<char>>::empty(),
{
    let w = recipe_of(gpus, installed).wrappers;
    assert(installed("gamemode"@) && installed("mangohud"@) ==> w =~= seq![
        "gamemoderun"@,
        "mangohud"@,
    ]);
    assert(installed("gamemode"@) && !installed("mangohud"@) ==> w =~= seq!["gamemoderun"@]);
    assert(!installed("gamemode"@) && installed("mangohud"@) ==> w =~= seq!["mangohud"@]);
    assert(!installed("gamemode"@) && !installed("mangohud"@) ==> w =~= Seq::empty());
}

/// What is pasted into Steam is read, word by word, as the assignments in their order, then the
/// wrappers from the outermost in, then the placeholder for the game.
pub proof fn options_are_read_word_by_word(r: RecipeModel, i: int)
    requires
        forall|k: int|
            0 <= k < r.environment.len() ==> crate::text::is_word((#[trigger] r.environment[k]).0)
                && crate::text::is_word(r.environment[k].1),
        forall|k: int| 0 <= k < r.wrappers.len() ==> crate::text::is_word(#[trigger] r.wrappers[k]),
    ensures
        crate::text::words(steam_options(r)).len() == r.environment.len() + r.wrappers.len() + 1,
        0 <= i < r.environment.len() ==> crate::text::words(steam_options(r))[i]
            == r.environment[i].0.push('=') + r.environment[i].1,
        0 <= i < r.wrappers.len() ==> crate::text::words(steam_options(r))[r.environment.len() + i]
            == r.wrappers[i],
        crate::text::words(steam_options(r)).last() == "%command%"@,
{
    reveal_strlit("%command%");
    reveal_strlit("=");
    let parts = recipe_parts(r).push("%command%"@);
    let n = r.environment.len();
    assert forall|k: int| 0 <= k < parts.len() implies crate::text::is_word(#[trigger] parts[k]) by {
        if k < n {
            let e = r.environment[k];
            assert(parts[k] == e.0 + "="@ + e.1);
            assert(crate::text::is_word(e.0) && crate::text::is_word(e.1));
            assert forall|m: int| 0 <= m < parts[k].len() implies !crate::text::is_space(
                #[trigger] parts[k][m],
            ) by {
                if m < e.0.len() {
                    assert(parts[k][m] == e.0[m]);
                } else if m > e.0.len() {
                    assert(parts[k][m] == e.1[m - e.0.len() - 1]);
                }
            }
        } else if k < n + r.wrappers.len() {
            assert(parts[k] == r.wrappers[k - n]);
        }
    }
    crate::text::joined_words_are_read_back(parts);
    if 0 <= i < n {
        assert(parts[i] =~= r.environment[i].0.push('=') + r.environment[i].1);
    }
    if 0 <= i < r.wrappers.len() {
        assert(parts[n + i] == r.wrappers[i]);
    }
}

/// The file of a Lutris game is named by its slug and an id of digits: the game's title is made of the
/// slug alone. A file that is no such file is no game's.
pub proof fn lutris_names_drop_the_id(slug: Seq<char>, id: Seq<char>)
    requires
        slug.len() > 0,
        all_digits(id),
    ensures
        lutris_game(slug.push('-') + id + ".yml"@) is Some,
        lutris_game(slug.push('-') + id + ".yml"@)->0.name == titled(slug),
        lutris_game(slug.push('-') + id + ".yml"@)->0.source == Source::Lutris,
        lutris_game(slug.push('-') + id + ".yml"@)->0.app_id is None,
{
    let stem = slug.push('-') + id;
    let file = stem + ".yml"@;
    assert(file.subrange(file.len() - ".yml"@.len(), file.len() as int) =~= ".yml"@);
    assert(file.take(file.len() - ".yml"@.len()) =~= stem);
    crate::text::the_last_one_is_found(stem, '-');
    let at = slug.len() as int;
    assert(stem[at] == '-');
    match crate::text::rfind_char(stem, '-') {
        Some(i) => {
            if i > at {
                assert(stem[i] == id[i - at - 1]);
                assert(crate::text::is_digit(id[i - at - 1]));
            }
            assert(i == at);
            assert(stem.take(at) =~= slug);
            assert(stem.skip(at + 1) =~= id);
        },
        None => {
            assert(stem.contains('-'));
        },
    }
}

/// The words of a slug become the words of a title: a hyphen becomes a space, and each word begins with
/// its letter in upper case.
pub proof fn titles_are_made_word_by_word(word: Seq<char>, rest: Seq<char>)
    requires
        word.len() > 0,
        !word.contains('-'),
    ensures
        titled(word) == unicode_uppercase(word[0]) + word.skip(1),
        title_words(rest).len() > 0 ==> titled(word.push('-') + rest) == titled(word) + " "@ + titled(
            rest,
        ),
{
    let f = |w: Seq<char>|
        if w.len() > 0 {
            Some(capitalised(w))
        } else {
            None
        };
    crate::text::parts_come_apart(word, '-', rest);
    let one = seq![word];
    crate::lists::lemma_filter_map_add(one, split(rest, '-'), f);
    crate::lists::lemma_filter_map_step(one, 0, f);
    assert(one.take(1) =~= one);
    assert(one.take(0) =~= Seq::<Seq<char>>::empty());
    crate::lists::lemma_none_picked(Seq::<Seq<char>>::empty(), f);
    assert(one.filter_map(f) =~= seq![capitalised(word)]);
    assert(title_words(word) == one.filter_map(f));
    assert(title_words(word.push('-') + rest) == seq![capitalised(word)] + title_words(rest));
    if title_words(rest).len() > 0 {
        crate::text::lemma_join_first(capitalised(word), title_words(rest), " "@);
    }
}

/// A game that Heroic lists is called by its title, or by its internal name where it has none; it is
/// as large, and stands, as Heroic says.
pub proof fn heroic_games_are_taken_at_their_word(entry: JsonModel)
    ensures
        heroic_entry(entry) is Some <==> text_in(member(entry, "title"@)) is Some || text_in(
            member(entry, "app_name"@),
        ) is Some,
        text_in(member(entry, "title"@)) is Some ==> heroic_entry(entry)->0.name == text_in(
            member(entry, "title"@),
        )->0,
        text_in(member(entry, "title"@)) is None && heroic_entry(entry) is Some ==> heroic_entry(
            entry,
        )->0.name == text_in(member(entry, "app_name"@))->0,
        heroic_entry(entry) is Some ==> {
            let g = heroic_entry(entry)->0;
            &&& g.source == Source::Heroic
            &&& g.app_id is None
            &&& g.last_played is None
            &&& g.install_dir == text_in(member(entry, "install_path"@))
            &&& number_in(member(entry, "install_size"@)) == Some(g.size_on_disk) || (number_in(
                member(entry, "install_size"@),
            ) is None && g.size_on_disk == 0)
        },
{
}

/// Of two games of the list the one played later comes first, a game that was played comes before one
/// that never was, and games played at the same moment, or never, come by name.
pub proof fn played_games_come_before_the_rest(found: Seq<GameModel>, i: int, j: int)
    requires
        0 <= i < j < by_rank::<Game>(found).len(),
    ensures
        by_rank::<Game>(found)[j].last_played is Some ==> by_rank::<Game>(found)[i].last_played is Some
            && by_rank::<Game>(found)[i].last_played->0 >= by_rank::<Game>(found)[j].last_played->0,
        by_rank::<Game>(found)[i].last_played == by_rank::<Game>(found)[j].last_played ==> text_le(
            unicode_lowercase(by_rank::<Game>(found)[i].name),
            unicode_lowercase(by_rank::<Game>(found)[j].name),
        ),
{
    the_last_played_comes_first(found);
    let a = by_rank::<Game>(found)[i];
    let b = by_rank::<Game>(found)[j];
    assert(played(a) >= played(b));
}

/// How long ago a game was played is said in the largest unit of which enough have passed: hours are
/// not told apart, days are counted up to a month, months of thirty days up to two years, and years of
/// 365 days after that. The number said is that of the whole units that have passed.
pub proof fn the_time_since_is_in_whole_units(timestamp: u64, now: u64, n: int)
    requires
        now >= timestamp,
    ensures
        now - timestamp < 3600 ==> time_since(timestamp, now) == "in the last hour"@,
        3600 <= now - timestamp < 2 * 86_400 ==> time_since(timestamp, now) == "yesterday"@,
        2 <= n < 30 && n * 86_400 <= now - timestamp < (n + 1) * 86_400 ==> time_since(timestamp, now)
            == decimal(n) + " days ago"@,
        1 <= n && n * 30 * 86_400 <= now - timestamp < (n + 1) * 30 * 86_400 && now - timestamp < 2 * 365
            * 86_400 ==> time_since(timestamp, now) == decimal(n) + " months ago"@,
        2 <= n && n * 365 * 86_400 <= now - timestamp < (n + 1) * 365 * 86_400 ==> time_since(
            timestamp,
            now,
        ) == decimal(n) + " years ago"@,
        now == timestamp ==> time_since(timestamp, now) == "in the last hour"@,
{
    let s = now - timestamp;
    if 2 <= n < 30 && n * 86_400 <= s < (n + 1) * 86_400 {
        assert(s / 86_400 == n);
    }
    if 1 <= n && n * 30 * 86_400 <= s < (n + 1) * 30 * 86_400 {
        assert(s / 2_592_000 == n);
    }
    if 2 <= n && n * 365 * 86_400 <= s < (n + 1) * 365 * 86_400 {
        assert(s / 31_536_000 == n);
    }
}

/// A line is the key of an app and nothing more: the one thing it quotes is a number. The mark that
/// closes it may be missing at the end of the line.
pub open spec fn is_app_line(line: Seq<char>, id: Seq<char>) -> bool {
    exists|before: Seq<char>, after: Seq<char>| #[trigger] is_key_of(line, before, id, after)
}

/// A line is made up of something, a quoted number, and something more.
pub open spec fn is_key_of(line: Seq<char>, before: Seq<char>, id: Seq<char>, after: Seq<char>) -> bool {
    &&& line == before.push('"') + id + after
    &&& !before.contains('"')
    &&& id.len() > 0 && all_digits(id)
    &&& after.len() > 0 ==> after[0] == '"' && !after.skip(1).contains('"')
}

/// The options of a game stand below its app id: after the line of an app, whatever other lines follow
/// that are no app's, a line that pairs `LaunchOptions` with a text sets that app's options to it.
pub proof fn options_belong_to_the_app_above(
    all: Seq<Seq<char>>,
    i: int,
    k: int,
    id: Seq<char>,
    value: Seq<char>,
    before: Seq<char>,
    between: Seq<char>,
)
    requires
        0 <= i < k < all.len(),
        is_app_line(all[i], id),
        forall|j: int, other: Seq<char>| i < j < k ==> !#[trigger] is_app_line(all[j], other),
        is_made_of(all[k], before, "LaunchOptions"@, between, value, seq!['"']),
        trim(value).len() > 0,
    ensures
        options_from(all.take(k + 1)).1.contains_key(id),
        options_from(all.take(k + 1)).1[id] == value,
{
    lemma_app_stays(all, i, k, id);
    assert(all.take(k + 1).drop_last() =~= all.take(k));
    assert(all.take(k + 1).last() == all[k]);
    let line = all[k];
    let none = Seq::<char>::empty();
    let s3 = value.push('"') + none;
    let s2 = between.push('"') + s3;
    let s1 = "LaunchOptions"@.push('"') + s2;
    assert(line =~= before.push('"') + s1);
    crate::text::parts_come_apart(before, '"', s1);
    crate::text::parts_come_apart("LaunchOptions"@, '"', s2);
    crate::text::parts_come_apart(between, '"', s3);
    crate::text::parts_come_apart(value, '"', none);
    crate::text::parts_come_apart(none, '"', none);
    assert(split(line, '"') =~= seq![before, "LaunchOptions"@, between, value, none]);
}

proof fn lemma_app_line(line: Seq<char>, id: Seq<char>)
    ensures
        is_app_line(line, id) <==> quoted_count(line) == 1 && split(line, '"')[1] == id && id.len() > 0
            && all_digits(id),
{
    let parts = split(line, '"');
    let mark = seq!['"'];
    if is_app_line(line, id) {
        let (before, after) = choose|before: Seq<char>, after: Seq<char>| #[trigger]
            is_key_of(line, before, id, after);
        assert(!id.contains('"')) by {
            if id.contains('"') {
                let m = choose|m: int| 0 <= m < id.len() && id[m] == '"';
                assert(crate::text::is_digit(id[m]));
            }
        }
        let s1 = id + after;
        assert(line =~= before.push('"') + s1);
        crate::text::parts_come_apart(before, '"', s1);
        if after.len() == 0 {
            assert(s1 =~= id);
            crate::text::parts_come_apart(id, '"', after);
            assert(parts =~= seq![before, id]);
        } else {
            let rest = after.skip(1);
            assert(s1 =~= id.push('"') + rest);
            crate::text::parts_come_apart(id, '"', rest);
            crate::text::parts_come_apart(rest, '"', rest);
            assert(parts =~= seq![before, id, rest]);
        }
    }
    if quoted_count(line) == 1 && parts[1] == id && id.len() > 0 && all_digits(id) {
        crate::text::parts_make_up_the_text(line, '"');
        assert(parts =~= seq![parts[0]] + parts.skip(1));
        crate::text::lemma_join_first(parts[0], parts.skip(1), mark);
        assert(!parts[0].contains('"'));
        if parts.len() == 2 {
            assert(parts.skip(1) =~= seq![id]);
            assert(crate::text::join(parts.skip(1), mark) == id);
            let after = Seq::<char>::empty();
            assert(line =~= parts[0].push('"') + id + after);
            assert(is_key_of(line, parts[0], id, after));
        } else {
            assert(parts.len() == 3);
            assert(parts.skip(1) =~= seq![id] + seq![parts[2]]);
            crate::text::lemma_join_first(id, seq![parts[2]], mark);
            assert(crate::text::join(seq![parts[2]], mark) == parts[2]);
            let after = mark + parts[2];
            assert(after.skip(1) =~= parts[2]);
            assert(!parts[2].contains('"'));
            assert(line =~= parts[0].push('"') + id + after);
            assert(is_key_of(line, parts[0], id, after));
        }
    }
}

proof fn lemma_app_stays(all: Seq<Seq<char>>, i: int, k: int, id: Seq<char>)
    requires
        0 <= i < k <= all.len(),
        is_app_line(all[i], id),
        forall|j: int, other: Seq<char>| i < j < k ==> !#[trigger] is_app_line(all[j], other),
    ensures
        options_from(all.take(k)).0 == Some(id),
    decreases k,
{
    assert(all.take(k).drop_last() =~= all.take(k - 1));
    assert(all.take(k).last() == all[k - 1]);
    if k - 1 > i {
        lemma_app_stays(all, i, k - 1, id);
        lemma_app_line(all[k - 1], split(all[k - 1], '"')[1]);
    } else {
        lemma_app_line(all[i], id);
    }
}

/// Options that are nothing but white space are none, and a line that is neither an app's nor names
/// options changes nothing.
pub proof fn other_lines_set_no_options(state: OptionsModel, line: Seq<char>)
    ensures
        forall|value: Seq<char>| #[trigger]
            pairs(line, "LaunchOptions"@, value) && trim(value).len() == 0 ==> after_line(state, line).1
                == state.1,
        state.0 is None ==> after_line(state, line).1 == state.1,
        quoted_count(line) != 1 && quoted_count(line) != 2 ==> after_line(state, line) == state,
{
    assert forall|value: Seq<char>| #[trigger]
        pairs(line, "LaunchOptions"@, value) && trim(value).len() == 0 implies after_line(state, line).1
        == state.1 by {
        a_pair_is_read_from_its_line(line, "LaunchOptions"@, value);
    }
}

/// What Steam installs for itself is told by its app id or by its name, and nothing else is left out of
/// the library.
pub proof fn steams_own_parts_are_told_by_id_or_name(app_id: Seq<char>, name: Seq<char>)
    ensures
        is_plumbing(app_id, name) <==> app_id == "228980"@ || app_id == "1070560"@ || app_id
            == "1391110"@ || app_id == "1493710"@ || "Proton"@.is_prefix_of(name)
            || "Steam Linux Runtime"@.is_prefix_of(name) || "SteamLinuxRuntime"@.is_prefix_of(name) || name
            == "Steamworks Common Redistributables"@,
{
}

} // verus!
