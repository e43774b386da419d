//! What the pages are made of: rows, notes and buttons, and what a button does when it is pressed.
use vstd::prelude::*;
use crate::checks::{Check, CheckModel, Fix, FixModel, State};
use crate::text::cat3;

verus! {

/// What a button does when it is pressed.
#[derive(Debug, PartialEq, Eq)]
pub enum Press {
    /// Carries out fixes.
    Fixes(Vec<Fix>),
    /// Shows a page.
    Jump(&'static str),
    /// Copies a text, and says so.
    Copy { text: String, toast: &'static str },
    /// Opens a folder.
    Open(String),
    /// Asks whether the system's own settings should be restored.
    Revert,
    /// Asks whether a shader cache should be cleared.
    ClearCache(String),
    /// Exports a recording.
    Export { source: String, destination: String },
    /// Asks whether a recording should be deleted.
    Delete { path: String, name: String },
    /// Restarts the desktop portal.
    RestartPortal,
    /// Runs the program that shows whether Vulkan works.
    TestVulkan,
}

/// What a button does.
#[verifier::ext_equal]
pub enum PressModel {
    Fixes(Seq<FixModel>),
    Jump(Seq<char>),
    Copy(Seq<char>, Seq<char>),
    Open(Seq<char>),
    Revert,
    ClearCache(Seq<char>),
    Export(Seq<char>, Seq<char>),
    Delete(Seq<char>, Seq<char>),
    RestartPortal,
    TestVulkan,
}

impl DeepView for Press {
    type V = PressModel;

    open spec fn deep_view(&self) -> PressModel {
        match self {
            Press::Fixes(fixes) => PressModel::Fixes(fixes.deep_view()),
            Press::Jump(page) => PressModel::Jump(page@),
            Press::Copy { text, toast } => PressModel::Copy(text@, toast@),
            Press::Open(path) => PressModel::Open(path@),
            Press::Revert => PressModel::Revert,
            Press::ClearCache(path) => PressModel::ClearCache(path@),
            Press::Export { source, destination } => PressModel::Export(source@, destination@),
            Press::Delete { path, name } => PressModel::Delete(path@, name@),
            Press::RestartPortal => PressModel::RestartPortal,
            Press::TestVulkan => PressModel::TestVulkan,
        }
    }
}

/// A button.
#[derive(Debug, PartialEq, Eq)]
pub struct Button {
    pub label: String,
    /// Whether it is the one that is suggested.
    pub suggested: bool,
    /// Whether it can be pressed.
    pub sensitive: bool,
    pub tip: Option<&'static str>,
    pub press: Press,
}

/// What a button shows and does.
#[verifier::ext_equal]
pub struct ButtonModel {
    pub label: Seq<char>,
    pub suggested: bool,
    pub sensitive: bool,
    pub tip: Option<Seq<char>>,
    pub press: PressModel,
}

impl DeepView for Button {
    type V = ButtonModel;

    open spec fn deep_view(&self) -> ButtonModel {
        ButtonModel {
            label: self.label@,
            suggested: self.suggested,
            sensitive: self.sensitive,
            tip: self.tip.deep_view(),
            press: self.press.deep_view(),
        }
    }
}

/// A button that can be pressed.
pub open spec fn plain_button(label: Seq<char>, suggested: bool, press: PressModel) -> ButtonModel {
    ButtonModel { label, suggested, sensitive: true, tip: None, press }
}

/// A button that can be pressed.
pub fn button(label: &str, suggested: bool, press: Press) -> (r: Button)
    ensures
        r.deep_view() == plain_button(label@, suggested, press.deep_view()),
{
    Button { label: String::from_str(label), suggested, sensitive: true, tip: None, press }
}

/// What stands at the end of a row.
#[derive(Debug, PartialEq, Eq)]
pub enum Trailing {
    Nothing,
    Badge { text: &'static str, class: &'static str },
    Button(Button),
}

/// What stands at the end of a row.
#[verifier::ext_equal]
pub enum TrailingModel {
    Nothing,
    Badge(Seq<char>, Seq<char>),
    Button(ButtonModel),
}

impl DeepView for Trailing {
    type V = TrailingModel;

    open spec fn deep_view(&self) -> TrailingModel {
        match self {
            Trailing::Nothing => TrailingModel::Nothing,
            Trailing::Badge { text, class } => TrailingModel::Badge(text@, class@),
            Trailing::Button(button) => TrailingModel::Button(button.deep_view()),
        }
    }
}

/// One line of a list: an icon in the state's colour, a title, a detail, and what stands at the end.
#[derive(Debug, PartialEq, Eq)]
pub struct Row {
    pub state: State,
    pub title: String,
    pub detail: String,
    pub trailing: Trailing,
}

/// What a row says.
#[verifier::ext_equal]
pub struct RowModel {
    pub state: State,
    pub title: Seq<char>,
    pub detail: Seq<char>,
    pub trailing: TrailingModel,
}

impl DeepView for Row {
    type V = RowModel;

    open spec fn deep_view(&self) -> RowModel {
        RowModel {
            state: self.state,
            title: self.title@,
            detail: self.detail@,
            trailing: self.trailing.deep_view(),
        }
    }
}

/// A row with nothing at its end.
pub open spec fn plain_row(state: State, title: Seq<char>, detail: Seq<char>) -> RowModel {
    RowModel { state, title, detail, trailing: TrailingModel::Nothing }
}

/// A row with nothing at its end.
pub fn row(state: State, title: &str, detail: &str) -> (r: Row)
    ensures
        r.deep_view() == plain_row(state, title@, detail@),
{
    Row {
        state,
        title: String::from_str(title),
        detail: String::from_str(detail),
        trailing: Trailing::Nothing,
    }
}

/// A part of a card.
#[derive(Debug, PartialEq, Eq)]
pub enum Item {
    Row(Row),
    Note { text: String, class: &'static str },
    /// A line with a button that copies it.
    Line(String),
    Bullet(String),
    Eyebrow(&'static str),
    Buttons(Vec<Button>),
}

/// What a part of a card says.
#[verifier::ext_equal]
pub enum ItemModel {
    Row(RowModel),
    Note(Seq<char>, Seq<char>),
    Line(Seq<char>),
    Bullet(Seq<char>),
    Eyebrow(Seq<char>),
    Buttons(Seq<ButtonModel>),
}

impl DeepView for Item {
    type V = ItemModel;

    open spec fn deep_view(&self) -> ItemModel {
        match self {
            Item::Row(row) => ItemModel::Row(row.deep_view()),
            Item::Note { text, class } => ItemModel::Note(text@, class@),
            Item::Line(text) => ItemModel::Line(text@),
            Item::Bullet(text) => ItemModel::Bullet(text@),
            Item::Eyebrow(text) => ItemModel::Eyebrow(text@),
            Item::Buttons(buttons) => ItemModel::Buttons(buttons.deep_view()),
        }
    }
}

/// Pushes an item.
pub fn append_item(items: &mut Vec<Item>, item: Item)
    ensures
        final(items).deep_view() == old(items).deep_view().push(item.deep_view()),
{
    let ghost before = items.deep_view();
    let ghost one = item.deep_view();
    items.push(item);
    assert(items.deep_view() =~= before.push(one));
}

/// A row of one button.
pub fn lone_button(button: Button) -> (r: Item)
    ensures
        r.deep_view() == ItemModel::Buttons(seq![button.deep_view()]),
{
    let ghost one = button.deep_view();
    let mut list: Vec<Button> = Vec::new();
    list.push(button);
    assert(list.deep_view() =~= seq![one]);
    Item::Buttons(list)
}

/// A list of one fix.
pub fn one_fix(fix: Fix) -> (r: Vec<Fix>)
    ensures
        r.deep_view() == seq![fix.deep_view()],
{
    let ghost one = fix.deep_view();
    let mut list: Vec<Fix> = Vec::new();
    list.push(fix);
    assert(list.deep_view() =~= seq![one]);
    list
}

// ---------------------------------------------------------------------------
// Checks as rows
// ---------------------------------------------------------------------------

/// What the button for a fix is called.
pub open spec fn fix_label(fix: FixModel) -> Seq<char> {
    match fix {
        FixModel::Install(names) => if names.len() == 1 {
            "Install"@
        } else {
            "Install all"@
        },
        FixModel::BuildModules(_) => "Build"@,
        _ => "Apply"@,
    }
}

/// The button for a fix; none where the app can do nothing.
pub open spec fn button_for(fix: Option<FixModel>) -> TrailingModel {
    match fix {
        Some(FixModel::Manual(_)) => TrailingModel::Nothing,
        Some(f) => TrailingModel::Button(
            plain_button(fix_label(f), true, PressModel::Fixes(seq![f])),
        ),
        None => TrailingModel::Nothing,
    }
}

/// What is said of a check: what it found, and the advice where only the person can do something.
pub open spec fn detail_of(c: CheckModel) -> Seq<char> {
    match c.fix {
        Some(FixModel::Manual(advice)) => c.detail + "\n\n"@ + advice,
        _ => c.detail,
    }
}

/// A check as a row.
pub open spec fn check_row(c: CheckModel) -> RowModel {
    RowModel { state: c.state, title: c.title, detail: detail_of(c), trailing: button_for(c.fix) }
}

/// The button a failing check offers, if the app can do anything.
pub fn fix_button(fix: &Option<Fix>) -> (r: Trailing)
    ensures
        r.deep_view() == button_for(fix.deep_view()),
{
    match fix {
        Some(f) => {
            let label: &str = match f {
                Fix::Install(names) => if names.len() == 1 {
                    "Install"
                } else {
                    "Install all"
                },
                Fix::BuildModules(_) => "Build",
                Fix::ApplyTweaks => "Apply",
                Fix::Manual(_) => {
                    return Trailing::Nothing;
                },
            };
            Trailing::Button(button(label, true, Press::Fixes(one_fix(f.clone()))))
        },
        None => Trailing::Nothing,
    }
}

/// A check as a row.
pub fn row_for(check: &Check) -> (r: Row)
    ensures
        r.deep_view() == check_row(check.deep_view()),
{
    let detail: String = match &check.fix {
        Some(Fix::Manual(advice)) => cat3(&check.detail, "\n\n", advice),
        _ => check.detail.clone(),
    };
    Row {
        state: check.state,
        title: check.title.clone(),
        detail,
        trailing: fix_button(&check.fix),
    }
}

/// Checks as rows.
pub fn check_rows(checks: &Vec<Check>) -> (r: Vec<Row>)
    ensures
        r.deep_view() == checks.deep_view().map_values(|c: CheckModel| check_row(c)),
{
    let ghost every = checks.deep_view();
    let ghost f = |c: CheckModel| check_row(c);
    let mut rows: Vec<Row> = Vec::new();
    let mut i: usize = 0;
    assert(rows.deep_view() =~= every.take(0).map_values(f));
    while i < checks.len()
        invariant
            i <= checks.len(),
            every == checks.deep_view(),
            f == (|c: CheckModel| check_row(c)),
            rows.deep_view() == every.take(i as int).map_values(f),
        decreases checks.len() - i,
    {
        let ghost before = rows.deep_view();
        assert(every[i as int] == checks@[i as int].deep_view());
        rows.push(row_for(&checks[i]));
        assert(rows.deep_view() =~= before.push(f(every[i as int])));
        i = i + 1;
        assert(rows.deep_view() =~= every.take(i as int).map_values(f));
    }
    assert(every.take(i as int) =~= every);
    rows
}

// ---------------------------------------------------------------------------
// Laws
// ---------------------------------------------------------------------------

/// A row offers a button exactly where the app can do something about its check.
pub proof fn a_button_means_a_fix(c: CheckModel)
    ensures
        check_row(c).trailing is Button <==> c.fix is Some && !(c.fix->0 is Manual),
{
}

/// The button of a row carries out that row's own fix and no other.
pub proof fn a_button_does_its_own_fix(c: CheckModel)
    requires
        check_row(c).trailing is Button,
    ensures
        check_row(c).trailing->Button_0.press == PressModel::Fixes(seq![c.fix->0]),
{
}

/// A button is called by what it does: it installs, it builds, or it applies.
pub proof fn a_button_is_called_by_what_it_does(names: Seq<Seq<char>>)
    ensures
        names.len() == 1 ==> fix_label(FixModel::Install(names)) == "Install"@,
        names.len() != 1 ==> fix_label(FixModel::Install(names)) == "Install all"@,
        fix_label(FixModel::BuildModules(names)) == "Build"@,
        fix_label(FixModel::ApplyTweaks) == "Apply"@,
{
}

/// A row says what its check found, in its state and under its title, and adds the advice where there is
/// nothing the app can do.
pub proof fn a_row_says_what_its_check_found(c: CheckModel, advice: Seq<char>)
    ensures
        check_row(c).state == c.state && check_row(c).title == c.title,
        c.fix is None ==> check_row(c).detail == c.detail,
        c.fix == Some(FixModel::Manual(advice)) ==> check_row(c).detail == c.detail + "\n\n"@ + advice
            && check_row(c).trailing is Nothing,
        c.fix == Some(FixModel::ApplyTweaks) ==> check_row(c).detail == c.detail && check_row(
            c,
        ).trailing->Button_0.sensitive,
{
}

} // verus!
