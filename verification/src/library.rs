//! The Library page: what is installed, and how each game should be started.
use vstd::prelude::*;
use crate::casing::{alphanumeric, unicode_alphanumeric, unicode_uppercase, uppercase};
use crate::checks::State;
use crate::collections::{NameSet, TextMap};
use crate::games::{
    cover_art, cover_places_of, game_detail, launch_command, launch_of, recipe_of, recipe_parts,
    recipe_with, source_name, steam_options, Game, GameModel, LaunchRecipe, RecipeModel, Source,
};
use crate::gpu::{cards, Gpu};
use crate::lists::{first_where, lemma_first_is, lemma_first_none};
use crate::number::{decimal, decimal_of};
use crate::query::among;
use crate::text::{cat2, cat3, chars_of, join};
use crate::view::{
    append_item, button, plain_button, plain_row, row, Button, ButtonModel, Item, ItemModel, Press,
    PressModel, Row, RowModel,
};

verus! {

/// A recipe adds nothing to how a game is started.
pub open spec fn adds_nothing(r: RecipeModel) -> bool {
    r.environment.len() == 0 && r.wrappers.len() == 0
}

// ---------------------------------------------------------------------------
// How to start a game
// ---------------------------------------------------------------------------

/// The line to paste into Steam, what each part of it does, and the same for a terminal.
pub open spec fn recipe_items(r: RecipeModel) -> Seq<ItemModel> {
    let prefix = join(recipe_parts(r), " "@);
    seq![ItemModel::Line(steam_options(r))] + (if r.notes.len() == 0 {
        seq![
            ItemModel::Note(
                "There is nothing this machine needs added: one graphics card, and no helpers installed. A game started plainly is already started correctly."@,
                "dim-label"@,
            ),
        ]
    } else {
        r.notes.map_values(|note: Seq<char>| ItemModel::Bullet(note))
    }) + (if prefix.len() == 0 {
        Seq::empty()
    } else {
        seq![
            ItemModel::Eyebrow("Outside Steam, in a terminal:"@),
            ItemModel::Line(prefix + " ./the-game"@),
        ]
    })
}

/// The line to paste into Steam, what each part of it does, and the same for a terminal.
pub fn recipe_section(recipe: &LaunchRecipe) -> (r: Vec<Item>)
    ensures
        r.deep_view() == recipe_items(recipe.deep_view()),
{
    let ghost m = recipe.deep_view();
    let mut items: Vec<Item> = Vec::new();
    items.push(Item::Line(recipe.steam_launch_options()));
    let ghost first = items.deep_view();
    assert(first =~= seq![ItemModel::Line(steam_options(m))]);
    let ghost every = recipe.notes.deep_view();
    let ghost f = |note: Seq<char>| ItemModel::Bullet(note);
    if recipe.notes.len() == 0 {
        append_item(
            &mut items,
            Item::Note {
                text: String::from_str(
                    "There is nothing this machine needs added: one graphics card, and no helpers installed. A game started plainly is already started correctly.",
                ),
                class: "dim-label",
            },
        );
    } else {
        let mut i: usize = 0;
        assert(first + every.take(0).map_values(f) =~= first);
        while i < recipe.notes.len()
            invariant
                i <= recipe.notes.len(),
                every == recipe.notes.deep_view(),
                f == (|note: Seq<char>| ItemModel::Bullet(note)),
                items.deep_view() == first + every.take(i as int).map_values(f),
            decreases recipe.notes.len() - i,
        {
            let ghost before = items.deep_view();
            assert(every[i as int] == recipe.notes@[i as int]@);
            append_item(&mut items, Item::Bullet(recipe.notes[i].clone()));
            assert(items.deep_view() =~= before.push(f(every[i as int])));
            assert(every.take(i + 1).map_values(f) =~= every.take(i as int).map_values(f).push(
                f(every[i as int]),
            ));
            i = i + 1;
            assert(items.deep_view() =~= first + every.take(i as int).map_values(f));
        }
        assert(every.take(i as int) =~= every);
    }
    let prefix = recipe.shell_prefix();
    if chars_of(&prefix).len() > 0 {
        append_item(&mut items, Item::Eyebrow("Outside Steam, in a terminal:"));
        append_item(&mut items, Item::Line(cat2(&prefix, " ./the-game")));
    }
    assert(items.deep_view() =~= recipe_items(m));
    items
}

// ---------------------------------------------------------------------------
// One game
// ---------------------------------------------------------------------------

/// What is said of a game's launch options.
#[derive(Debug, PartialEq, Eq)]
pub enum Options {
    /// They are set.
    Chosen(String),
    /// They are not, and could be.
    Unset(&'static str),
    /// There is nothing to say.
    Silent,
}

/// What is said of a game's launch options.
#[verifier::ext_equal]
pub enum OptionsText {
    Chosen(Seq<char>),
    Unset(Seq<char>),
    Silent,
}

impl DeepView for Options {
    type V = OptionsText;

    open spec fn deep_view(&self) -> OptionsText {
        match self {
            Options::Chosen(text) => OptionsText::Chosen(text@),
            Options::Unset(text) => OptionsText::Unset(text@),
            Options::Silent => OptionsText::Silent,
        }
    }
}

/// The row of a game.
#[derive(Debug, PartialEq, Eq)]
pub struct GameRow {
    pub tint: &'static str,
    pub name: String,
    pub detail: String,
    pub options: Options,
    /// A button that copies the recommended options, where there are any.
    pub copy: Option<Button>,
}

/// What the row of a game says.
#[verifier::ext_equal]
pub struct GameRowModel {
    pub tint: Seq<char>,
    pub name: Seq<char>,
    pub detail: Seq<char>,
    pub options: OptionsText,
    pub copy: Option<ButtonModel>,
}

impl DeepView for GameRow {
    type V = GameRowModel;

    open spec fn deep_view(&self) -> GameRowModel {
        GameRowModel {
            tint: self.tint@,
            name: self.name@,
            detail: self.detail@,
            options: self.options.deep_view(),
            copy: self.copy.deep_view(),
        }
    }
}

/// What a game is set to run with, if anything.
pub open spec fn options_of(
    g: GameModel,
    configured: Map<Seq<char>, Seq<char>>,
    recipe: RecipeModel,
) -> OptionsText {
    if g.app_id is Some && configured.contains_key(g.app_id->0) {
        OptionsText::Chosen("Launch options: "@ + configured[g.app_id->0])
    } else if g.source == Source::Steam && !adds_nothing(recipe) {
        OptionsText::Unset("No launch options set — this one starts with the defaults."@)
    } else {
        OptionsText::Silent
    }
}

/// The button that copies the recommended options.
pub open spec fn copy_button(recipe: RecipeModel) -> ButtonModel {
    ButtonModel {
        label: "Copy options"@,
        suggested: false,
        sensitive: true,
        tip: Some(
            "Copies the recommended launch options; paste them into this game's properties in Steam"@,
        ),
        press: copy_press(recipe),
    }
}

/// Copying the recommended options.
pub open spec fn copy_press(recipe: RecipeModel) -> PressModel {
    PressModel::Copy(
        steam_options(recipe),
        "Copied — paste into the game's Launch Options in Steam"@,
    )
}

/// The tint of a launcher.
pub open spec fn source_tint(s: Source) -> Seq<char> {
    match s {
        Source::Steam => "blue"@,
        Source::Lutris => "orange"@,
        Source::Heroic => "purple"@,
    }
}

/// What the row of a game says.
pub open spec fn game_row_of(
    g: GameModel,
    configured: Map<Seq<char>, Seq<char>>,
    recipe: RecipeModel,
    now: u64,
) -> GameRowModel {
    GameRowModel {
        tint: source_tint(g.source),
        name: g.name,
        detail: source_name(g.source) + " · "@ + game_detail(g, now),
        options: options_of(g, configured, recipe),
        copy: if g.source == Source::Steam && !adds_nothing(recipe) {
            Some(copy_button(recipe))
        } else {
            None
        },
    }
}

fn options_for(game: &Game, configured: &TextMap, worth_setting: bool) -> (r: Options)
    ensures
        forall|recipe: RecipeModel|
            worth_setting == !adds_nothing(recipe) ==> r.deep_view() == #[trigger] options_of(
                game.deep_view(),
                configured@,
                recipe,
            ),
{
    if let Some(id) = &game.app_id {
        if let Some(set) = configured.get(id) {
            return Options::Chosen(cat2("Launch options: ", set));
        }
    }
    if game.source == Source::Steam && worth_setting {
        return Options::Unset("No launch options set — this one starts with the defaults.");
    }
    Options::Silent
}

/// The row of a game, given the options that are set and those that are recommended.
pub fn game_row(game: &Game, configured: &TextMap, recipe: &LaunchRecipe, now: u64) -> (r: GameRow)
    ensures
        r.deep_view() == game_row_of(game.deep_view(), configured@, recipe.deep_view(), now),
{
    let worth_setting: bool = !recipe.is_empty();
    let tint: &'static str = match game.source {
        Source::Steam => "blue",
        Source::Lutris => "orange",
        Source::Heroic => "purple",
    };
    let copy: Option<Button> = if game.source == Source::Steam && worth_setting {
        Some(
            Button {
                label: String::from_str("Copy options"),
                suggested: false,
                sensitive: true,
                tip: Some(
                    "Copies the recommended launch options; paste them into this game's properties in Steam",
                ),
                press: Press::Copy {
                    text: recipe.steam_launch_options(),
                    toast: "Copied — paste into the game's Launch Options in Steam",
                },
            },
        )
    } else {
        None
    };
    let options = options_for(game, configured, worth_setting);
    assert(options.deep_view() == options_of(
        game.deep_view(),
        configured@,
        recipe.deep_view(),
    ));
    GameRow {
        tint,
        name: game.name.clone(),
        detail: cat3(game.source.name(), " · ", &game.detail(now)),
        options,
        copy,
    }
}

// ---------------------------------------------------------------------------
// The page
// ---------------------------------------------------------------------------

/// How many games there are, in words.
pub open spec fn found_text(count: int) -> Seq<char> {
    if count == 0 {
        "Nothing found yet."@
    } else if count == 1 {
        "One game found."@
    } else {
        decimal(count) + " games found."@
    }
}

/// The row that stands where there are no games.
pub open spec fn no_games_row(steam_installed: bool) -> RowModel {
    plain_row(
        State::Advisory,
        "No games found"@,
        if steam_installed {
            "Steam is installed but its library is empty. Anything installed through Steam, Lutris or Heroic shows up here."@
        } else {
            "No game launcher is installed. Steam brings Proton with it, which is what runs Windows games on Linux; the Overview page can install it."@
        },
    )
}

/// The Library page.
#[derive(Debug, PartialEq, Eq)]
pub struct GamesPage {
    pub recipe: Vec<Item>,
    pub found: String,
    /// What is said where there are no games.
    pub empty: Option<Row>,
    pub games: Vec<GameRow>,
}

/// What the Library page shows.
#[verifier::ext_equal]
pub struct GamesModel {
    pub recipe: Seq<ItemModel>,
    pub found: Seq<char>,
    pub empty: Option<RowModel>,
    pub games: Seq<GameRowModel>,
}

impl DeepView for GamesPage {
    type V = GamesModel;

    open spec fn deep_view(&self) -> GamesModel {
        GamesModel {
            recipe: self.recipe.deep_view(),
            found: self.found@,
            empty: self.empty.deep_view(),
            games: self.games.deep_view(),
        }
    }
}

/// What the Library page shows.
pub open spec fn games_of(
    recipe: RecipeModel,
    library: Seq<GameModel>,
    configured: Map<Seq<char>, Seq<char>>,
    steam_installed: bool,
    now: u64,
) -> GamesModel {
    GamesModel {
        recipe: recipe_items(recipe),
        found: found_text(library.len() as int),
        empty: if library.len() == 0 {
            Some(no_games_row(steam_installed))
        } else {
            None
        },
        games: library.map_values(|g: GameModel| game_row_of(g, configured, recipe, now)),
    }
}

/// The Library page, for the cards and packages of a machine, its games, and the options that are
/// set for them.
pub fn games_page(
    gpus: &Vec<Gpu>,
    packages: &NameSet,
    library: &Vec<Game>,
    configured: &TextMap,
    steam_installed: bool,
    now: u64,
) -> (r: GamesPage)
    ensures
        r.deep_view() == games_of(
            recipe_of(gpus.deep_view(), among(packages@)),
            library.deep_view(),
            configured@,
            steam_installed,
            now,
        ),
{
    assert(cards(gpus@) =~= gpus.deep_view());
    let recipe = recipe_with(gpus, packages);
    let ghost m = recipe.deep_view();
    let ghost every = library.deep_view();
    let ghost set = configured@;
    let ghost f = |g: GameModel| game_row_of(g, set, m, now);
    let mut rows: Vec<GameRow> = Vec::new();
    let mut i: usize = 0;
    assert(rows.deep_view() =~= every.take(0).map_values(f));
    while i < library.len()
        invariant
            i <= library.len(),
            every == library.deep_view(),
            set == configured@,
            m == recipe.deep_view(),
            f == (|g: GameModel| game_row_of(g, set, m, now)),
            rows.deep_view() == every.take(i as int).map_values(f),
        decreases library.len() - i,
    {
        let ghost before = rows.deep_view();
        assert(every[i as int] == library@[i as int].deep_view());
        rows.push(game_row(&library[i], configured, &recipe, now));
        assert(rows.deep_view() =~= before.push(f(every[i as int])));
        i = i + 1;
        assert(rows.deep_view() =~= every.take(i as int).map_values(f));
    }
    assert(every.take(i as int) =~= every);
    let count: usize = library.len();
    let found: String = if count == 0 {
        String::from_str("Nothing found yet.")
    } else if count == 1 {
        String::from_str("One game found.")
    } else {
        cat2(&decimal_of(count as u64), " games found.")
    };
    let empty: Option<Row> = if count == 0 {
        let detail: &str = if steam_installed {
            "Steam is installed but its library is empty. Anything installed through Steam, Lutris or Heroic shows up here."
        } else {
            "No game launcher is installed. Steam brings Proton with it, which is what runs Windows games on Linux; the Overview page can install it."
        };
        Some(row(State::Advisory, "No games found", detail))
    } else {
        None
    };
    GamesPage { recipe: recipe_section(&recipe), found, empty, games: rows }
}

// ---------------------------------------------------------------------------
// The shelf
// ---------------------------------------------------------------------------

/// The letter on a plate that stands for a missing cover: the first letter or number of the name.
pub open spec fn letter_of(name: Seq<char>) -> Seq<char> {
    match first_where(name, |c: char| unicode_alphanumeric(c)) {
        Some(c) => unicode_uppercase(c),
        None => "?"@,
    }
}

/// The letter on a plate that stands for a missing cover.
pub fn cover_letter(name: &str) -> (r: String)
    ensures
        r@ == letter_of(name@),
{
    let chars = chars_of(name);
    let ghost p = |c: char| unicode_alphanumeric(c);
    let mut i: usize = 0;
    while i < chars.len()
        invariant
            i <= chars.len(),
            chars@ == name@,
            p == (|c: char| unicode_alphanumeric(c)),
            forall|j: int| 0 <= j < i ==> !p(#[trigger] chars@[j]),
        decreases chars.len() - i,
    {
        if alphanumeric(chars[i]) {
            proof {
                lemma_first_is(chars@, p, i as int);
            }
            return uppercase(chars[i]);
        }
        i = i + 1;
    }
    proof {
        lemma_first_none(chars@, p);
    }
    String::from_str("?")
}

/// A game on the shelf.
#[derive(Debug, PartialEq, Eq)]
pub struct GameTile {
    pub name: String,
    /// The cover, where the launcher has one on disk.
    pub cover: Option<String>,
    /// What stands for it where there is none.
    pub letter: String,
    /// Whether it can be started from here.
    pub playable: bool,
    /// The launcher, which is named where it cannot.
    pub source: &'static str,
    pub menu: Vec<Button>,
}

/// What is shown of a game on the shelf.
#[verifier::ext_equal]
pub struct GameTileModel {
    pub name: Seq<char>,
    pub cover: Option<Seq<char>>,
    pub letter: Seq<char>,
    pub playable: bool,
    pub source: Seq<char>,
    pub menu: Seq<ButtonModel>,
}

impl DeepView for GameTile {
    type V = GameTileModel;

    open spec fn deep_view(&self) -> GameTileModel {
        GameTileModel {
            name: self.name@,
            cover: self.cover.deep_view(),
            letter: self.letter@,
            playable: self.playable,
            source: self.source@,
            menu: self.menu.deep_view(),
        }
    }
}

/// What can be done for a game from its menu.
pub open spec fn menu_of(g: GameModel, recipe: RecipeModel, directories: Set<Seq<char>>) -> Seq<
    ButtonModel,
> {
    (if g.source == Source::Steam && !adds_nothing(recipe) {
        seq![plain_button("Copy launch options"@, false, copy_press(recipe))]
    } else {
        Seq::empty()
    }) + (if g.install_dir is Some && directories.contains(g.install_dir->0) {
        seq![plain_button("Open install folder"@, false, PressModel::Open(g.install_dir->0))]
    } else {
        Seq::empty()
    })
}

/// What can be done for a game from its menu, given the directories that exist.
pub fn tile_menu(game: &Game, recipe: &LaunchRecipe, directories: &NameSet) -> (r: Vec<Button>)
    ensures
        r.deep_view() == menu_of(game.deep_view(), recipe.deep_view(), directories@),
{
    let mut menu: Vec<Button> = Vec::new();
    if game.source == Source::Steam && !recipe.is_empty() {
        menu.push(
            button(
                "Copy launch options",
                false,
                Press::Copy {
                    text: recipe.steam_launch_options(),
                    toast: "Copied — paste into the game's Launch Options in Steam",
                },
            ),
        );
    }
    if let Some(dir) = &game.install_dir {
        if directories.contains(dir) {
            menu.push(button("Open install folder", false, Press::Open(dir.clone())));
        }
    }
    assert(menu.deep_view() =~= menu_of(game.deep_view(), recipe.deep_view(), directories@));
    menu
}

/// What the file system and the installed commands say of games.
#[derive(Debug)]
pub struct Surroundings {
    /// Where Steam is installed.
    pub roots: Vec<String>,
    /// The covers that exist.
    pub files: NameSet,
    /// The install directories that exist.
    pub directories: NameSet,
    /// Where the commands that start games are.
    pub steam: Option<String>,
    pub xdg_open: Option<String>,
}

/// What is shown of a game on the shelf.
pub open spec fn tile_of(g: GameModel, recipe: RecipeModel, s: Surroundings) -> GameTileModel {
    GameTileModel {
        name: g.name,
        cover: first_where(
            cover_places_of(g, s.roots.deep_view()),
            |place: Seq<char>| s.files@.contains(place),
        ),
        letter: letter_of(g.name),
        playable: launch_of(g, s.steam.deep_view(), s.xdg_open.deep_view()) is Some,
        source: source_name(g.source),
        menu: menu_of(g, recipe, s.directories@),
    }
}

/// A game on the shelf.
pub fn game_tile(game: &Game, recipe: &LaunchRecipe, around: &Surroundings) -> (r: GameTile)
    ensures
        r.deep_view() == tile_of(game.deep_view(), recipe.deep_view(), *around),
{
    let steam: Option<&str> = match &around.steam {
        Some(path) => Some(path.as_str()),
        None => None,
    };
    let xdg_open: Option<&str> = match &around.xdg_open {
        Some(path) => Some(path.as_str()),
        None => None,
    };
    GameTile {
        name: game.name.clone(),
        cover: cover_art(game, &around.roots, &around.files),
        letter: cover_letter(&game.name),
        playable: launch_command(game, steam, xdg_open).is_some(),
        source: game.source.name(),
        menu: tile_menu(game, recipe, &around.directories),
    }
}

/// How many games the shelf shows.
pub const SHELF_SIZE: usize = 12;

/// The games at the front of a list, as many as the shelf shows.
pub open spec fn shelved(library: Seq<GameModel>) -> Seq<GameModel> {
    if library.len() > SHELF_SIZE {
        library.take(SHELF_SIZE as int)
    } else {
        library
    }
}

/// The games on the shelf.
pub fn shelf(library: &Vec<Game>, recipe: &LaunchRecipe, around: &Surroundings) -> (r: Vec<GameTile>)
    ensures
        r.deep_view() == shelved(library.deep_view()).map_values(
            |g: GameModel| tile_of(g, recipe.deep_view(), *around),
        ),
{
    let ghost every = library.deep_view();
    let ghost m = recipe.deep_view();
    let ghost f = |g: GameModel| tile_of(g, m, *around);
    let n: usize = if library.len() > SHELF_SIZE {
        SHELF_SIZE
    } else {
        library.len()
    };
    let mut tiles: Vec<GameTile> = Vec::new();
    let mut i: usize = 0;
    assert(tiles.deep_view() =~= every.take(0).map_values(f));
    while i < n
        invariant
            i <= n <= library.len(),
            every == library.deep_view(),
            m == recipe.deep_view(),
            f == (|g: GameModel| tile_of(g, m, *around)),
            tiles.deep_view() == every.take(i as int).map_values(f),
        decreases n - i,
    {
        let ghost before = tiles.deep_view();
        assert(every[i as int] == library@[i as int].deep_view());
        tiles.push(game_tile(&library[i], recipe, around));
        assert(tiles.deep_view() =~= before.push(f(every[i as int])));
        i = i + 1;
        assert(tiles.deep_view() =~= every.take(i as int).map_values(f));
    }
    assert(shelved(every) =~= every.take(n as int));
    tiles
}

/// What is said on an empty shelf.
pub fn empty_shelf(steam_installed: bool) -> (r: &'static str)
    ensures
        r@ == (if steam_installed {
            "Steam is installed and its library is empty. Anything installed through Steam, Lutris or Heroic appears here."@
        } else {
            "No game launcher is installed. Steam brings Proton with it, which is what runs Windows games on Linux."@
        }),
{
    if steam_installed {
        "Steam is installed and its library is empty. Anything installed through Steam, Lutris or Heroic appears here."
    } else {
        "No game launcher is installed. Steam brings Proton with it, which is what runs Windows games on Linux."
    }
}

// ---------------------------------------------------------------------------
// Laws
// ---------------------------------------------------------------------------

/// Options are offered for copying only where pasting them does something: to a game of Steam's, and
/// where the machine needs any.
pub proof fn options_are_offered_where_they_help(
    g: GameModel,
    configured: Map<Seq<char>, Seq<char>>,
    recipe: RecipeModel,
    now: u64,
)
    ensures
        game_row_of(g, configured, recipe, now).copy is Some <==> g.source == Source::Steam
            && !adds_nothing(recipe),
{
}

/// Options that are set are shown, whatever is recommended.
pub proof fn set_options_are_shown(
    g: GameModel,
    configured: Map<Seq<char>, Seq<char>>,
    recipe: RecipeModel,
)
    requires
        g.app_id is Some,
        configured.contains_key(g.app_id->0),
    ensures
        options_of(g, configured, recipe) == OptionsText::Chosen(
            "Launch options: "@ + configured[g.app_id->0],
        ),
{
}

/// What is pasted into Steam and what is typed in a terminal say the same: the terminal's line is there
/// exactly where there is something to add.
pub proof fn a_terminal_needs_a_line_where_steam_needs_options(r: RecipeModel)
    ensures
        recipe_items(r)[0] == ItemModel::Line(steam_options(r)),
        join(recipe_parts(r), " "@).len() > 0 ==> recipe_items(r).last() == ItemModel::Line(
            join(recipe_parts(r), " "@) + " ./the-game"@,
        ),
        forall|i: int|
            0 <= i < r.notes.len() ==> recipe_items(r)[i + 1] == ItemModel::Bullet(
                #[trigger] r.notes[i],
            ),
{
}

/// A game of Steam's without options is told so exactly where there is something to set; another
/// launcher's is told nothing.
pub proof fn missing_options_are_mentioned_where_they_help(
    g: GameModel,
    configured: Map<Seq<char>, Seq<char>>,
    recipe: RecipeModel,
)
    requires
        g.app_id is None || !configured.contains_key(g.app_id->0),
    ensures
        options_of(g, configured, recipe) is Unset <==> g.source == Source::Steam && (
        recipe.environment.len() > 0 || recipe.wrappers.len() > 0),
        g.source != Source::Steam ==> options_of(g, configured, recipe) is Silent,
{
}

/// The button copies the line that Steam takes.
pub proof fn what_is_copied_is_what_steam_takes(recipe: RecipeModel)
    ensures
        copy_button(recipe).press is Copy,
        copy_button(recipe).press->Copy_0 == steam_options(recipe),
        copy_button(recipe).sensitive,
{
}

/// The number of games is said in words for none and one, and in figures for more.
pub proof fn games_are_counted_in_words(count: int)
    ensures
        found_text(0) == "Nothing found yet."@,
        found_text(1) == "One game found."@,
        count > 1 ==> found_text(count) == decimal(count) + " games found."@,
{
}

/// Every game has its row, in the order of the library, and the empty page is said to be so only where
/// there is none.
pub proof fn every_game_has_its_row(
    recipe: RecipeModel,
    library: Seq<GameModel>,
    configured: Map<Seq<char>, Seq<char>>,
    steam_installed: bool,
    now: u64,
)
    ensures
        games_of(recipe, library, configured, steam_installed, now).games.len() == library.len(),
        games_of(recipe, library, configured, steam_installed, now).empty is Some <==> library.len() == 0,
        forall|i: int|
            0 <= i < library.len() ==> (#[trigger] games_of(
                recipe,
                library,
                configured,
                steam_installed,
                now,
            ).games[i]).name == library[i].name,
{
}

/// The plate of a game without a cover shows the first letter or number of its name, in capitals.
pub proof fn a_plate_shows_the_first_letter(name: Seq<char>, k: int)
    ensures
        0 <= k < name.len() && unicode_alphanumeric(name[k]) && (forall|j: int|
            0 <= j < k ==> !unicode_alphanumeric(#[trigger] name[j])) ==> letter_of(name)
            == unicode_uppercase(name[k]),
        (forall|j: int| 0 <= j < name.len() ==> !unicode_alphanumeric(#[trigger] name[j]))
            ==> letter_of(name) == "?"@,
{
    let p = |c: char| unicode_alphanumeric(c);
    if 0 <= k < name.len() && unicode_alphanumeric(name[k]) && (forall|j: int|
        0 <= j < k ==> !unicode_alphanumeric(#[trigger] name[j])) {
        crate::lists::lemma_first_is(name, p, k);
    }
    if forall|j: int| 0 <= j < name.len() ==> !unicode_alphanumeric(#[trigger] name[j]) {
        crate::lists::lemma_first_none(name, p);
    }
}

/// A folder is offered to be opened exactly where the game has one and it exists.
pub proof fn a_folder_can_be_opened_where_it_is(
    g: GameModel,
    recipe: RecipeModel,
    directories: Set<Seq<char>>,
    path: Seq<char>,
)
    ensures
        (exists|i: int|
            0 <= i < menu_of(g, recipe, directories).len() && (#[trigger] menu_of(
                g,
                recipe,
                directories,
            )[i]).press == PressModel::Open(path)) <==> g.install_dir == Some(path)
            && directories.contains(path),
{
    let menu = menu_of(g, recipe, directories);
    if g.install_dir == Some(path) && directories.contains(path) {
        assert(menu.last().press == PressModel::Open(path));
        assert(menu[menu.len() - 1].press == PressModel::Open(path));
    }
}

/// The shelf shows the first twelve games of the library, and all of them where there are no more.
pub proof fn the_shelf_shows_twelve(library: Seq<GameModel>)
    ensures
        library.len() <= 12 ==> shelved(library) == library,
        library.len() > 12 ==> shelved(library).len() == 12,
        shelved(library).is_prefix_of(library),
{
}

} // verus!
