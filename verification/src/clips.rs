//! The Capture page: the recordings, and what can be done with each.
use vstd::prelude::*;
use crate::capture::{
    is_recording_name, named_as_recording, recording_detail, recording_name, Recording,
    RecordingModel,
};
use crate::checks::State;
use crate::path::{
    another_extension_is_had, another_extension_keeps_the_directory,
    another_extension_keeps_the_stem, file_name, is_same_path,
    name_of_path, parent, parent_of, same_path, stem, with_extension,
};
use crate::text::{cat2, cat3, join};
use crate::view::{
    plain_row, row, Button, ButtonModel, Press, PressModel, Row, RowModel,
};

verus! {

/// The row of a recording.
#[derive(Debug, PartialEq, Eq)]
pub struct RecordingRow {
    pub tint: &'static str,
    pub name: String,
    pub detail: String,
    /// What is said where it was exported.
    pub exported: Option<String>,
    pub export: Button,
    pub reveal: Press,
    pub delete: Press,
}

/// What the row of a recording says and does.
#[verifier::ext_equal]
pub struct RecordingRowModel {
    pub tint: Seq<char>,
    pub name: Seq<char>,
    pub detail: Seq<char>,
    pub exported: Option<Seq<char>>,
    pub export: ButtonModel,
    pub reveal: PressModel,
    pub delete: PressModel,
}

impl DeepView for RecordingRow {
    type V = RecordingRowModel;

    open spec fn deep_view(&self) -> RecordingRowModel {
        RecordingRowModel {
            tint: self.tint@,
            name: self.name@,
            detail: self.detail@,
            exported: self.exported.deep_view(),
            export: self.export.deep_view(),
            reveal: self.reveal.deep_view(),
            delete: self.delete.deep_view(),
        }
    }
}

/// The button that exports a recording.
pub open spec fn export_button(r: RecordingModel, exporter: bool) -> ButtonModel {
    ButtonModel {
        label: if r.exported is Some {
            "Export again"@
        } else {
            "Export"@
        },
        suggested: r.exported is None,
        sensitive: exporter,
        tip: if exporter {
            None
        } else {
            Some("raven-export is not installed"@)
        },
        press: PressModel::Export(r.path, with_extension(r.path, "mp4"@)),
    }
}

/// The folder that a recording is in; the recording itself where it is in none.
pub open spec fn folder_of(path: Seq<char>) -> Seq<char> {
    match parent(path) {
        Some(folder) => folder,
        None => path,
    }
}

/// What the row of a recording says and does.
pub open spec fn recording_row_of(r: RecordingModel, exporter: bool) -> RecordingRowModel {
    RecordingRowModel {
        tint: if r.complete {
            "red"@
        } else {
            "orange"@
        },
        name: recording_name(r.path),
        detail: join(recording_detail(r), " · "@),
        exported: match r.exported {
            Some(video) => Some(
                "Exported to "@ + (match file_name(video) {
                    Some(name) => name,
                    None => ""@,
                }),
            ),
            None => None,
        },
        export: export_button(r, exporter),
        reveal: PressModel::Open(folder_of(r.path)),
        delete: PressModel::Delete(r.path, recording_name(r.path)),
    }
}

/// The row of a recording, given whether the exporter is installed.
pub fn recording_row(recording: &Recording, exporter: bool) -> (r: RecordingRow)
    ensures
        r.deep_view() == recording_row_of(recording.deep_view(), exporter),
{
    let tint: &'static str = if recording.complete {
        "red"
    } else {
        "orange"
    };
    let exported: Option<String> = match &recording.exported {
        Some(video) => {
            let name: String = match name_of_path(video) {
                Some(name) => name,
                None => String::from_str(""),
            };
            Some(cat2("Exported to ", &name))
        },
        None => None,
    };
    let label: &str = match &recording.exported {
        Some(_) => "Export again",
        None => "Export",
    };
    let tip: Option<&'static str> = if exporter {
        None
    } else {
        Some("raven-export is not installed")
    };
    let export = Button {
        label: String::from_str(label),
        suggested: recording.exported.is_none(),
        sensitive: exporter,
        tip,
        press: Press::Export {
            source: recording.path.clone(),
            destination: recording.export_path(),
        },
    };
    let folder: String = match parent_of(&recording.path) {
        Some(folder) => folder,
        None => recording.path.clone(),
    };
    RecordingRow {
        tint,
        name: recording.name(),
        detail: recording.detail(),
        exported,
        export,
        reveal: Press::Open(folder),
        delete: Press::Delete { path: recording.path.clone(), name: recording.name() },
    }
}

/// What is said of whether something is being recorded. A permanently lit record light would be a
/// small lie.
pub fn live_line(recording: bool) -> (r: &'static str)
    ensures
        r@ == (if recording {
            "Recording now."@
        } else {
            "Not recording."@
        }),
{
    if recording {
        "Recording now."
    } else {
        "Not recording."
    }
}

/// The Capture page.
#[derive(Debug, PartialEq, Eq)]
pub struct CapturePage {
    /// Where the recordings are, in words.
    pub place: String,
    /// Whether their folder is there to be opened.
    pub can_open: bool,
    /// What is said where there are none.
    pub empty: Option<Row>,
    pub recordings: Vec<RecordingRow>,
    pub exporter: Row,
}

/// What the Capture page shows.
#[verifier::ext_equal]
pub struct CaptureModel {
    pub place: Seq<char>,
    pub can_open: bool,
    pub empty: Option<RowModel>,
    pub recordings: Seq<RecordingRowModel>,
    pub exporter: RowModel,
}

impl DeepView for CapturePage {
    type V = CaptureModel;

    open spec fn deep_view(&self) -> CaptureModel {
        CaptureModel {
            place: self.place@,
            can_open: self.can_open,
            empty: self.empty.deep_view(),
            recordings: self.recordings.deep_view(),
            exporter: self.exporter.deep_view(),
        }
    }
}

/// The row that says whether recordings can be exported.
pub open spec fn exporter_row(installed: bool) -> RowModel {
    if installed {
        plain_row(
            State::Good,
            "raven-export is installed"@,
            "Every recording above has an Export button. The MP4 is written beside the recording, and the recording is kept."@,
        )
    } else {
        plain_row(
            State::Problem,
            "raven-export is not installed"@,
            "It ships with the Raven desktop and is what turns a recording into a video. Without it a recording can still be made and kept, but not played anywhere else."@,
        )
    }
}

/// What the Capture page shows.
pub open spec fn capture_of(
    recordings: Seq<RecordingModel>,
    folder: Seq<char>,
    folder_exists: bool,
    exporter: bool,
) -> CaptureModel {
    CaptureModel {
        place: "In "@ + folder,
        can_open: folder_exists,
        empty: if recordings.len() == 0 {
            Some(
                plain_row(
                    State::Advisory,
                    "Nothing recorded yet"@,
                    "Press Super+Print while a game is on screen. The recording lands in "@ + folder
                        + " and appears here."@,
                ),
            )
        } else {
            None
        },
        recordings: recordings.map_values(|r: RecordingModel| recording_row_of(r, exporter)),
        exporter: exporter_row(exporter),
    }
}

/// The Capture page, for the recordings of a folder.
pub fn capture_page(
    recordings: &Vec<Recording>,
    folder: &str,
    folder_exists: bool,
    exporter: bool,
) -> (r: CapturePage)
    ensures
        r.deep_view() == capture_of(recordings.deep_view(), folder@, folder_exists, exporter),
{
    let ghost every = recordings.deep_view();
    let ghost f = |r: RecordingModel| recording_row_of(r, exporter);
    let mut rows: Vec<RecordingRow> = Vec::new();
    let mut i: usize = 0;
    assert(rows.deep_view() =~= every.take(0).map_values(f));
    while i < recordings.len()
        invariant
            i <= recordings.len(),
            every == recordings.deep_view(),
            f == (|r: RecordingModel| recording_row_of(r, exporter)),
            rows.deep_view() == every.take(i as int).map_values(f),
        decreases recordings.len() - i,
    {
        let ghost before = rows.deep_view();
        assert(every[i as int] == recordings@[i as int].deep_view());
        rows.push(recording_row(&recordings[i], exporter));
        assert(rows.deep_view() =~= before.push(f(every[i as int])));
        i = i + 1;
        assert(rows.deep_view() =~= every.take(i as int).map_values(f));
    }
    assert(every.take(i as int) =~= every);
    let empty: Option<Row> = if recordings.len() == 0 {
        Some(
            row(
                State::Advisory,
                "Nothing recorded yet",
                &cat3(
                    "Press Super+Print while a game is on screen. The recording lands in ",
                    folder,
                    " and appears here.",
                ),
            ),
        )
    } else {
        None
    };
    let can_export: Row = if exporter {
        row(
            State::Good,
            "raven-export is installed",
            "Every recording above has an Export button. The MP4 is written beside the recording, and the recording is kept.",
        )
    } else {
        row(
            State::Problem,
            "raven-export is not installed",
            "It ships with the Raven desktop and is what turns a recording into a video. Without it a recording can still be made and kept, but not played anywhere else.",
        )
    };
    CapturePage {
        place: cat2("In ", folder),
        can_open: folder_exists,
        empty,
        recordings: rows,
        exporter: can_export,
    }
}

/// A file may be deleted as a recording: it is named as one, in the folder of recordings.
pub open spec fn may_be_deleted(path: Seq<char>, folder: Seq<char>) -> bool {
    &&& parent(path) is Some
    &&& same_path(parent(path)->0, folder)
    &&& is_recording_name(path)
}

/// Whether a file may be deleted as a recording: only ever a recording inside the recordings folder.
pub fn is_deletable_recording(path: &str, folder: &str) -> (r: bool)
    ensures
        r == may_be_deleted(path@, folder@),
{
    match parent_of(path) {
        Some(dir) => is_same_path(&dir, folder) && named_as_recording(path),
        None => false,
    }
}

// ---------------------------------------------------------------------------
// Laws
// ---------------------------------------------------------------------------

/// Only a file that is named as a recording is ever deleted.
pub proof fn only_recordings_are_deleted(path: Seq<char>, folder: Seq<char>)
    requires
        may_be_deleted(path, folder),
    ensures
        is_recording_name(path),
        same_path(parent(path)->0, folder),
{
}

/// An export goes beside the recording it is made from, under the same name as a video, and never
/// overwrites it.
pub proof fn an_export_goes_beside_its_recording(r: RecordingModel, exporter: bool)
    requires
        is_recording_name(r.path),
    ensures
        recording_row_of(r, exporter).export.press->Export_1 != r.path,
        file_name(recording_row_of(r, exporter).export.press->Export_1) == Some(
            recording_name(r.path) + "."@ + "mp4"@,
        ),
        parent(recording_row_of(r, exporter).export.press->Export_1) == parent(r.path),
{
    reveal_strlit("mp4");
    reveal_strlit("rvr");
    let name = file_name(r.path)->0;
    another_extension_keeps_the_stem(r.path, "mp4"@);
    another_extension_keeps_the_directory(r.path, "mp4"@);
    another_extension_is_had(stem(name), "mp4"@);
    assert("mp4"@[0] != "rvr"@[0]);
}

/// A recording can be exported exactly where the exporter is installed, and is offered again where that
/// was done.
pub proof fn a_recording_is_exported_by_the_exporter(r: RecordingModel, exporter: bool)
    ensures
        recording_row_of(r, exporter).export.sensitive == exporter,
        recording_row_of(r, exporter).export.press is Export,
        recording_row_of(r, exporter).export.press->Export_0 == r.path,
        r.exported is None ==> recording_row_of(r, exporter).export.label == "Export"@
            && recording_row_of(r, exporter).export.suggested && recording_row_of(
            r,
            exporter,
        ).exported is None,
        r.exported is Some ==> recording_row_of(r, exporter).export.label == "Export again"@
            && !recording_row_of(r, exporter).export.suggested && recording_row_of(
            r,
            exporter,
        ).exported is Some,
        recording_row_of(r, exporter).delete == PressModel::Delete(r.path, recording_name(r.path)),
        r.complete ==> recording_row_of(r, exporter).tint == "red"@,
        !r.complete ==> recording_row_of(r, exporter).tint == "orange"@,
{
}

/// The page shows every recording in its order, and is said to be empty exactly where there is none.
pub proof fn every_recording_has_its_row(
    recordings: Seq<RecordingModel>,
    folder: Seq<char>,
    folder_exists: bool,
    exporter: bool,
)
    ensures
        capture_of(recordings, folder, folder_exists, exporter).recordings.len() == recordings.len(),
        forall|i: int|
            0 <= i < recordings.len() ==> (#[trigger] capture_of(
                recordings,
                folder,
                folder_exists,
                exporter,
            ).recordings[i]).name == recording_name(recordings[i].path),
        capture_of(recordings, folder, folder_exists, exporter).empty is Some <==> recordings.len() == 0,
        capture_of(recordings, folder, folder_exists, exporter).can_open == folder_exists,
        capture_of(recordings, folder, folder_exists, exporter).exporter.state == (if exporter {
            State::Good
        } else {
            State::Problem
        }),
{
}

/// A file is deleted as a recording only where its name ends in the extension of recordings, and never
/// one that another folder holds.
pub proof fn nothing_but_a_recording_is_deleted(path: Seq<char>, folder: Seq<char>)
    ensures
        may_be_deleted(path, folder) ==> file_name(path) is Some,
        file_name(path) is None ==> !may_be_deleted(path, folder),
        may_be_deleted(path, folder) ==> exists|first: Seq<char>|
            first.len() > 0 && file_name(path) == Some(#[trigger] first.push('.') + "rvr"@),
        parent(path) is Some && !same_path(parent(path)->0, folder) ==> !may_be_deleted(path, folder),
{
    if may_be_deleted(path, folder) {
        let name = file_name(path)->0;
        crate::text::the_last_one_is_found(name, '.');
        let at = crate::text::rfind_char(name, '.')->0;
        let first = name.take(at);
        assert(name =~= first.push('.') + "rvr"@);
        assert(first.len() > 0);
    }
}

} // verus!
