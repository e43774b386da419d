//! The Screen sharing page: what a screen share needs, and what this desktop can do today.
use vstd::prelude::*;
use crate::checks::{Check, CheckModel, State};
use crate::share::{
    checks, compositor_is_huginn, is_ours, runs, sharing_list, Desktop, DesktopModel,
};
use crate::text::equal;
use crate::view::{check_row, check_rows, Row, RowModel};

verus! {

/// No backend can be asked for a screen.
pub open spec fn is_blocked(list: Seq<CheckModel>) -> bool {
    exists|i: int|
        0 <= i < list.len() && (#[trigger] list[i]).title == "Screen-sharing backend"@
            && list[i].state == State::Problem
}

fn finds_block(list: &Vec<Check>) -> (r: bool)
    ensures
        r == is_blocked(list.deep_view()),
{
    let mut i: usize = 0;
    while i < list.len()
        invariant
            i <= list.len(),
            forall|j: int|
                0 <= j < i ==> !((#[trigger] list.deep_view()[j]).title
                    == "Screen-sharing backend"@ && list.deep_view()[j].state == State::Problem),
        decreases list.len() - i,
    {
        assert(list.deep_view()[i as int] == list@[i as int].deep_view());
        if equal(&list[i].title, "Screen-sharing backend") && list[i].state == State::Problem {
            return true;
        }
        i = i + 1;
    }
    false
}

/// The Screen sharing page.
#[derive(Debug, PartialEq, Eq)]
pub struct SharingPage {
    /// Whether the page opens with why a screen cannot be shared.
    pub banner: bool,
    pub rows: Vec<Row>,
}

/// What the Screen sharing page shows.
#[verifier::ext_equal]
pub struct SharingModel {
    pub banner: bool,
    pub rows: Seq<RowModel>,
}

impl DeepView for SharingPage {
    type V = SharingModel;

    open spec fn deep_view(&self) -> SharingModel {
        SharingModel { banner: self.banner, rows: self.rows.deep_view() }
    }
}

/// The compositor drawing the session is Huginn.
pub open spec fn is_huginn(
    has_socket: bool,
    name: Option<Seq<char>>,
    processes: Seq<(Seq<char>, Option<Seq<char>>)>,
) -> bool {
    has_socket || match name {
        Some(desktop) => is_ours(desktop),
        None => runs(processes, "huginn"@),
    }
}

/// What the Screen sharing page shows.
pub open spec fn sharing_of(d: DesktopModel, has_socket: bool, name: Option<Seq<char>>) -> SharingModel {
    SharingModel {
        banner: is_blocked(sharing_list(d)) && is_huginn(has_socket, name, d.processes),
        rows: sharing_list(d).map_values(|c: CheckModel| check_row(c)),
    }
}

/// The Screen sharing page: why a screen cannot be shared, where that is so and the compositor is
/// the one that cannot give it away, and each piece that sharing needs.
pub fn sharing_page(desktop: &Desktop, has_socket: bool, name: Option<&str>) -> (r: SharingPage)
    ensures
        r.deep_view() == sharing_of(desktop.deep_view(), has_socket, name.deep_view()),
{
    let list = checks(desktop);
    let banner: bool = finds_block(&list) && compositor_is_huginn(
        has_socket,
        name,
        &desktop.processes,
    );
    SharingPage { banner, rows: check_rows(&list) }
}

// ---------------------------------------------------------------------------
// Laws
// ---------------------------------------------------------------------------

/// On another compositor the page does not open with why a screen cannot be shared.
pub proof fn other_compositors_are_not_told_so(d: DesktopModel, name: Seq<char>)
    requires
        !is_ours(name),
    ensures
        !sharing_of(d, false, Some(name)).banner,
{
}

/// A backend that gives away the screen takes the banner down.
pub proof fn a_backend_takes_the_banner_down(
    d: DesktopModel,
    has_socket: bool,
    name: Option<Seq<char>>,
)
    requires
        crate::share::backend_for(d.portals, "org.freedesktop.impl.portal.ScreenCast"@) is Some,
    ensures
        !sharing_of(d, has_socket, name).banner,
{
    let list = sharing_list(d);
    reveal_strlit("Screen-sharing backend");
    reveal_strlit("Desktop portal");
    reveal_strlit("PipeWire");
    reveal_strlit("Camera");
    reveal_strlit("Microphone");
    reveal_strlit("Capture software");
    assert(list[0].title.len() != "Screen-sharing backend"@.len());
    assert(list[2].title.len() != "Screen-sharing backend"@.len());
    assert(list[3].title.len() != "Screen-sharing backend"@.len());
    assert(list[4].title.len() != "Screen-sharing backend"@.len());
    assert(list[5].title.len() != "Screen-sharing backend"@.len());
}

/// The page opens with why a screen cannot be shared exactly where no portal file declares the screen-cast
/// interface and the compositor is Huginn: its socket is there, or the session names it, or, where the
/// session names nothing, it runs.
pub proof fn the_banner_is_for_huginn_without_a_backend(
    d: DesktopModel,
    has_socket: bool,
    name: Option<Seq<char>>,
)
    ensures
        sharing_of(d, has_socket, name).banner <==> sharing_list(d)[1].state == State::Problem && (
        has_socket || (name is Some && is_ours(name->0)) || (name is None && runs(
            d.processes,
            "huginn"@,
        ))),
        sharing_of(d, has_socket, name).rows.len() == 6,
{
    let list = sharing_list(d);
    reveal_strlit("Screen-sharing backend");
    reveal_strlit("Desktop portal");
    reveal_strlit("PipeWire");
    reveal_strlit("Camera");
    reveal_strlit("Microphone");
    reveal_strlit("Capture software");
    assert(list[0].title.len() != "Screen-sharing backend"@.len());
    assert(list[1].title == "Screen-sharing backend"@);
    assert(list[2].title.len() != "Screen-sharing backend"@.len());
    assert(list[3].title.len() != "Screen-sharing backend"@.len());
    assert(list[4].title.len() != "Screen-sharing backend"@.len());
    assert(list[5].title.len() != "Screen-sharing backend"@.len());
}

} // verus!
