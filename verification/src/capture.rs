//! Recording gameplay, and turning a recording into a video.
//!
//! The compositor records; this module is the part it leaves out. Recordings land in a folder in a
//! lossless format of their own: it lists them, says how long each one is, and turns the ones
//! worth keeping into video with `raven-export`.
//!
//! A recording is read without decoding it. The format puts a header at the front and a header on
//! every record, with the payload length in it, so the length of a recording is found by walking
//! record headers and seeking past the payloads, never reading a frame.
use vstd::prelude::*;
use vstd::slice::slice_subrange;
use crate::collections::NameSet;
use crate::lists::{
    first_where, lemma_filter_map_add, lemma_filter_map_step, lemma_first_is, lemma_first_none,
};
use crate::number::{
    decimal, decimal_of, is_real, padded_decimal, read_u64, reads_as_real, u64_of, zero_padded,
};
use crate::order::{by_rank, in_order, ranks, sort, sorting_orders, Ranked};
use crate::path::{
    extended, extension, extension_of, file_name, joined_path, name_of_path, no_later_path, path_le,
    path_le_total, path_le_transitive, stem, stem_of, with_extension,
};
use crate::text::{
    before_suffix, cat2, cat3, cat4, chars_of, cut, equal, find, found, join, joined, lines,
    lines_of, part, split_once, starts_with, string_of, strip_prefix, strip_suffix, texts, trim,
    trim_char, trimmed, trimmed_char, after_prefix,
};
use crate::tune::{bytes_text, human_bytes};

verus! {

/// How many bytes the header of a recording takes.
pub const HEADER_LEN: u64 = 20;

/// How many bytes the header of a record takes.
pub const RECORD_HEADER_LEN: u64 = 17;

/// The kind of the record that ends a recording.
pub const KIND_END: u8 = 2;

/// The bytes that a recording starts with: `RVNREC`.
pub open spec fn magic() -> Seq<u8> {
    seq![82u8, 86, 78, 82, 69, 67]
}

#[derive(Debug, Clone, PartialEq, Eq)]
pub struct Recording {
    pub path: String,
    pub bytes: u64,
    /// When it was last written to, in nanoseconds from 1970.
    pub modified: Option<i128>,
    pub width: u32,
    pub height: u32,
    /// How long it runs, in microseconds. `None` when the file has no records at all.
    pub duration: Option<u64>,
    /// Whether the end marker is there. A recording without one was cut short, and everything
    /// before the break is still good, which is worth saying rather than hiding.
    pub complete: bool,
    /// The exported video, where it already sits beside the recording.
    pub exported: Option<String>,
}

/// What is known of a recording.
#[verifier::ext_equal]
pub struct RecordingModel {
    pub path: Seq<char>,
    pub bytes: u64,
    pub modified: Option<i128>,
    pub width: u32,
    pub height: u32,
    pub duration: Option<u64>,
    pub complete: bool,
    pub exported: Option<Seq<char>>,
}

impl DeepView for Recording {
    type V = RecordingModel;

    open spec fn deep_view(&self) -> RecordingModel {
        RecordingModel {
            path: self.path@,
            bytes: self.bytes,
            modified: self.modified,
            width: self.width,
            height: self.height,
            duration: self.duration,
            complete: self.complete,
            exported: self.exported.deep_view(),
        }
    }
}

/// What a recording is called: its file's name without the extension.
pub open spec fn recording_name(path: Seq<char>) -> Seq<char> {
    match file_name(path) {
        Some(name) => stem(name),
        None => ""@,
    }
}

/// What is said of a recording: its size on screen, its length where it has one, its size on disk,
/// and that it was cut short where it was.
pub open spec fn recording_detail(r: RecordingModel) -> Seq<Seq<char>> {
    seq![decimal(r.width as int) + " × "@ + decimal(r.height as int)] + (match r.duration {
        Some(micros) => seq![length_text(micros as int / 1_000_000)],
        None => Seq::empty(),
    }) + seq![bytes_text(r.bytes)] + (if r.complete {
        Seq::empty()
    } else {
        seq!["cut short"@]
    })
}

impl Recording {
    pub fn name(&self) -> (r: String)
        ensures
            r@ == recording_name(self.path@),
    {
        match name_of_path(&self.path) {
            Some(name) => stem_of(&name),
            None => String::from_str(""),
        }
    }

    /// "1920 × 1080 · 2m 14s · 340 MB".
    pub fn detail(&self) -> (r: String)
        ensures
            r@ == join(recording_detail(self.deep_view()), " · "@),
    {
        let mut parts: Vec<String> = Vec::new();
        parts.push(
            cat3(&decimal_of(self.width as u64), " × ", &decimal_of(self.height as u64)),
        );
        if let Some(micros) = self.duration {
            parts.push(duration_text(micros / 1_000_000));
        }
        parts.push(human_bytes(self.bytes));
        if !self.complete {
            parts.push(String::from_str("cut short"));
        }
        assert(parts.deep_view() =~= recording_detail(self.deep_view()));
        joined(&parts, " · ")
    }

    /// Where an export of this recording goes.
    pub fn export_path(&self) -> (r: String)
        ensures
            r@ == with_extension(self.path@, "mp4"@),
    {
        extended(&self.path, "mp4")
    }
}

/// A length in the two largest units that it fills.
pub open spec fn length_text(seconds: int) -> Seq<char> {
    if seconds < 60 {
        decimal(seconds) + "s"@
    } else if seconds < 3600 {
        decimal(seconds / 60) + "m "@ + zero_padded(decimal(seconds % 60), 2) + "s"@
    } else {
        decimal(seconds / 3600) + "h "@ + zero_padded(decimal((seconds % 3600) / 60), 2) + "m"@
    }
}

/// A length, given in seconds, the way people say it.
pub fn duration_text(seconds: u64) -> (r: String)
    ensures
        r@ == length_text(seconds as int),
{
    if seconds < 60 {
        cat2(&decimal_of(seconds), "s")
    } else if seconds < 3600 {
        cat4(&decimal_of(seconds / 60), "m ", &padded_decimal(seconds % 60, 2), "s")
    } else {
        cat4(&decimal_of(seconds / 3600), "h ", &padded_decimal((seconds % 3600) / 60, 2), "m")
    }
}

// ---------------------------------------------------------------------------
// Where recordings are
// ---------------------------------------------------------------------------

/// The home directory; the current one where none is set.
pub open spec fn home_or_here(home: Option<Seq<char>>) -> Seq<char> {
    match home {
        Some(home) => home,
        None => "."@,
    }
}

/// The home directory; the current one where none is set.
pub fn home_dir(home: Option<&str>) -> (r: String)
    ensures
        r@ == home_or_here(home.deep_view()),
{
    match home {
        Some(home) => String::from_str(home),
        None => String::from_str("."),
    }
}

/// The file that says where the user's directories are.
pub fn user_dirs_file(home: Option<&str>, config_home: Option<&str>) -> (r: String)
    ensures
        r@ == crate::path::join(
            match config_home.deep_view() {
                Some(config) => config,
                None => crate::path::join(home_or_here(home.deep_view()), ".config"@),
            },
            "user-dirs.dirs"@,
        ),
{
    let config = match config_home {
        Some(config) => String::from_str(config),
        None => joined_path(&home_dir(home), ".config"),
    };
    joined_path(&config, "user-dirs.dirs")
}

/// The user's videos directory: the environment's, else the configured one, else `Videos` below
/// the home directory.
pub open spec fn videos_place(
    home: Option<Seq<char>>,
    videos: Option<Seq<char>>,
    user_dirs: Option<Seq<char>>,
) -> Seq<char> {
    let configured = match user_dirs {
        Some(text) => user_dir(text, "XDG_VIDEOS_DIR"@, home_or_here(home)),
        None => None,
    };
    match videos {
        Some(dir) => dir,
        None => match configured {
            Some(dir) => dir,
            None => crate::path::join(home_or_here(home), "Videos"@),
        },
    }
}

/// The user's videos directory, from the environment and the text of the file that says where the
/// user's directories are.
pub fn videos_dir(home: Option<&str>, videos: Option<&str>, user_dirs: Option<&str>) -> (r: String)
    ensures
        r@ == videos_place(home.deep_view(), videos.deep_view(), user_dirs.deep_view()),
{
    let home = home_dir(home);
    if let Some(dir) = videos {
        return String::from_str(dir);
    }
    if let Some(text) = user_dirs {
        if let Some(dir) = parse_user_dir(text, "XDG_VIDEOS_DIR", &home) {
            return dir;
        }
    }
    joined_path(&home, "Videos")
}

/// Where the compositor writes recordings: `Recordings` in the user's videos directory.
pub fn recordings_dir(
    home: Option<&str>,
    videos: Option<&str>,
    user_dirs: Option<&str>,
) -> (r: String)
    ensures
        r@ == crate::path::join(
            videos_place(home.deep_view(), videos.deep_view(), user_dirs.deep_view()),
            "Recordings"@,
        ),
{
    joined_path(&videos_dir(home, videos, user_dirs), "Recordings")
}

/// A line sets a directory: it is no comment, and it starts with the directory's key.
pub open spec fn sets(line: Seq<char>, key: Seq<char>) -> bool {
    !"#"@.is_prefix_of(trim(line)) && key.is_prefix_of(trim(line))
}

/// What a line such as `XDG_VIDEOS_DIR="$HOME/Videos"` gives a directory as.
pub open spec fn dir_value(line: Seq<char>) -> Option<Seq<char>> {
    match split_once(trim(line), '=') {
        Some((_, value)) => Some(trim_char(trim(value), '"')),
        None => None,
    }
}

/// The directory that the first line for a key gives; `$HOME/` at its front stands for the home
/// directory, and an empty value gives none.
pub open spec fn user_dir(text: Seq<char>, key: Seq<char>, home: Seq<char>) -> Option<Seq<char>> {
    match first_where(lines(text), |line: Seq<char>| sets(line, key)) {
        Some(line) => match dir_value(line) {
            Some(value) => if value.len() == 0 {
                None
            } else {
                match strip_prefix(value, "$HOME/"@) {
                    Some(rest) => Some(crate::path::join(home, rest)),
                    None => Some(value),
                }
            },
            None => None,
        },
        None => None,
    }
}

/// One line of `user-dirs.dirs`: `XDG_VIDEOS_DIR="$HOME/Videos"`.
pub fn parse_user_dir(text: &str, key: &str, home: &str) -> (r: Option<String>)
    ensures
        r.deep_view() == user_dir(text@, key@, home@),
{
    let chars = chars_of(text);
    let all = lines_of(&chars);
    let ghost every = texts(all@);
    let ghost p = |line: Seq<char>| sets(line, key@);
    let mut i: usize = 0;
    while i < all.len()
        invariant
            i <= all.len(),
            every == texts(all@),
            every == lines(text@),
            p == (|line: Seq<char>| sets(line, key@)),
            forall|j: int| 0 <= j < i ==> !p(#[trigger] every[j]),
        decreases all.len() - i,
    {
        assert(every[i as int] == all@[i as int]@);
        let line = trimmed(all[i]);
        if !starts_with(line, "#") && starts_with(line, key) {
            proof {
                lemma_first_is(every, p, i as int);
            }
            return match cut(line, '=') {
                Some((_, value)) => {
                    let value = trimmed_char(trimmed(value), '"');
                    if value.len() == 0 {
                        None
                    } else {
                        match after_prefix(value, &chars_of("$HOME/")) {
                            Some(rest) => Some(joined_path(home, &string_of(rest))),
                            None => Some(string_of(value)),
                        }
                    }
                },
                None => None,
            };
        }
        i = i + 1;
    }
    proof {
        lemma_first_none(every, p);
    }
    None
}

// ---------------------------------------------------------------------------
// Reading a recording
// ---------------------------------------------------------------------------

/// The number that four bytes hold, the lowest first.
pub open spec fn little4(s: Seq<u8>, at: int) -> int {
    s[at] + 0x100 * s[at + 1] + 0x1_0000 * s[at + 2] + 0x100_0000 * s[at + 3]
}

/// The number that eight bytes hold, the lowest first.
pub open spec fn little8(s: Seq<u8>, at: int) -> int {
    little4(s, at) + 0x1_0000_0000 * little4(s, at + 4)
}

fn read_little4(s: &[u8], at: usize) -> (r: u32)
    requires
        at + 4 <= s@.len(),
    ensures
        r == little4(s@, at as int),
{
    let n: usize = s.len();
    assert(at + 4 <= n);
    s[at] as u32 + 0x100 * (s[at + 1] as u32) + 0x1_0000 * (s[at + 2] as u32) + 0x100_0000 * (
    s[at + 3] as u32)
}

fn read_little8(s: &[u8], at: usize) -> (r: u64)
    requires
        at + 8 <= s@.len(),
    ensures
        r == little8(s@, at as int),
{
    let n: usize = s.len();
    assert(at + 8 <= n);
    read_little4(s, at) as u64 + 0x1_0000_0000 * (read_little4(s, at + 4) as u64)
}

/// The header of a recording, or of what starts like one.
pub open spec fn is_header(header: Seq<u8>) -> bool {
    header.len() >= HEADER_LEN && header.take(6) == magic()
}

/// The width and height that the header of a recording gives; none where it is no such header.
pub fn read_header(header: &[u8]) -> (r: Option<(u32, u32)>)
    ensures
        r is Some == is_header(header@),
        r is Some ==> (r->0).0 == little4(header@, 8) && (r->0).1 == little4(header@, 12),
{
    if header.len() < 20 {
        return None;
    }
    let known: bool = header[0] == 82 && header[1] == 86 && header[2] == 78 && header[3] == 82
        && header[4] == 69 && header[5] == 67;
    proof {
        let six = header@.take(6);
        if known {
            assert(six =~= magic());
        } else {
            assert(six[0] == header@[0] && six[1] == header@[1] && six[2] == header@[2] && six[3]
                == header@[3] && six[4] == header@[4] && six[5] == header@[5]);
        }
    }
    if known {
        Some((read_little4(header, 8), read_little4(header, 12)))
    } else {
        None
    }
}

/// What walking the records of a file from an offset finds, after some last timestamp: the
/// timestamp of the last record whose header is there, and whether the record that ends the
/// recording was reached.
pub open spec fn walk(file: Seq<u8>, offset: int, last: Option<u64>) -> (Option<u64>, bool)
    decreases
            (if offset > file.len() {
                0
            } else {
                file.len() - offset
            }),
{
    if offset < 0 || offset + RECORD_HEADER_LEN > file.len() {
        (last, false)
    } else {
        let pts = Some(little8(file, offset + 1) as u64);
        if file[offset] == KIND_END {
            (pts, true)
        } else {
            walk(file, offset + RECORD_HEADER_LEN + little4(file, offset + 9), pts)
        }
    }
}

/// A walk over the records of a file: where the next record starts, and what was found so far.
#[derive(Debug, Clone, Copy, PartialEq, Eq)]
pub struct Walk {
    pub offset: u64,
    pub last: Option<u64>,
    pub complete: bool,
    pub over: bool,
}

/// A walk after the header of its next record, or after that could not be read.
pub open spec fn walked_on(w: Walk, header: Option<Seq<u8>>) -> Walk {
    match header {
        Some(h) => if h.len() < RECORD_HEADER_LEN {
            Walk { over: true, ..w }
        } else {
            let pts = Some(little8(h, 1) as u64);
            let next = w.offset + RECORD_HEADER_LEN + little4(h, 9);
            if h[0] == KIND_END {
                Walk { last: pts, complete: true, over: true, ..w }
            } else if next > u64::MAX {
                Walk { last: pts, over: true, ..w }
            } else {
                Walk { last: pts, offset: next as u64, ..w }
            }
        },
        None => Walk { over: true, ..w },
    }
}

/// What a walk over a file comes to.
pub open spec fn outcome(w: Walk, file: Seq<u8>) -> (Option<u64>, bool) {
    if w.over {
        (w.last, w.complete)
    } else {
        walk(file, w.offset as int, w.last)
    }
}

impl Walk {
    /// A walk that starts behind the header of a recording.
    pub fn start() -> (r: Walk)
        ensures
            r == (Walk { offset: HEADER_LEN, last: None, complete: false, over: false }),
    {
        Walk { offset: HEADER_LEN, last: None, complete: false, over: false }
    }

    /// Where the next record's header is to be read, in a file of some length; nowhere where the
    /// walk is over.
    pub fn wants(&self, file_len: u64) -> (r: Option<u64>)
        ensures
            r == (if !self.over && self.offset + RECORD_HEADER_LEN <= file_len {
                Some(self.offset)
            } else {
                None
            }),
    {
        if !self.over && file_len >= RECORD_HEADER_LEN && self.offset <= file_len
            - RECORD_HEADER_LEN {
            Some(self.offset)
        } else {
            None
        }
    }

    /// The walk after the header of its next record; none where that could not be read.
    pub fn step(self, header: Option<&[u8]>) -> (r: Walk)
        ensures
            r == walked_on(
                self,
                match header {
                    Some(h) => Some(h@),
                    None => None,
                },
            ),
    {
        let mut w = self;
        match header {
            Some(h) => {
                if h.len() < 17 {
                    w.over = true;
                    return w;
                }
                let pts: u64 = read_little8(h, 1);
                let length: u32 = read_little4(h, 9);
                w.last = Some(pts);
                if h[0] == KIND_END {
                    w.complete = true;
                    w.over = true;
                    return w;
                }
                match w.offset.checked_add(RECORD_HEADER_LEN + length as u64) {
                    Some(next) => {
                        w.offset = next;
                    },
                    None => {
                        w.over = true;
                    },
                }
            },
            None => {
                w.over = true;
            },
        }
        w
    }
}

/// Walks every record header of a recording in memory, and returns the last timestamp and whether
/// the end marker was reached.
pub fn walk_records(file: &[u8]) -> (r: (Option<u64>, bool))
    ensures
        r == walk(file@, HEADER_LEN as int, None),
{
    let n: usize = file.len();
    let mut w = Walk::start();
    loop
        invariant
            n == file@.len(),
            !w.complete || w.over,
            outcome(w, file@) == walk(file@, HEADER_LEN as int, None),
        ensures
            (w.last, w.complete) == walk(file@, HEADER_LEN as int, None),
        decreases
                (if w.offset > n {
                    0
                } else {
                    n - w.offset
                }),
                (if w.over {
                    0int
                } else {
                    1int
                }),
    {
        match w.wants(n as u64) {
            Some(offset) => {
                proof {
                    a_step_keeps_the_outcome(w, file@);
                }
                let at: usize = offset as usize;
                let header = slice_subrange(file, at, at + 17);
                w = w.step(Some(header));
            },
            None => {
                break;
            },
        }
    }
    (w.last, w.complete)
}

/// What was read of a file that may be a recording.
#[derive(Debug)]
pub struct RecordingFile {
    pub path: String,
    pub bytes: u64,
    pub modified: Option<i128>,
    /// Its first bytes, as many as the header of a recording takes where it has them.
    pub header: Vec<u8>,
    /// What walking its records came to.
    pub walked: (Option<u64>, bool),
    /// Whether a video sits where its export goes.
    pub export_exists: bool,
}

/// What was read of a file.
#[verifier::ext_equal]
pub struct RecordingFileModel {
    pub path: Seq<char>,
    pub bytes: u64,
    pub modified: Option<i128>,
    pub header: Seq<u8>,
    pub walked: (Option<u64>, bool),
    pub export_exists: bool,
}

impl DeepView for RecordingFile {
    type V = RecordingFileModel;

    open spec fn deep_view(&self) -> RecordingFileModel {
        RecordingFileModel {
            path: self.path@,
            bytes: self.bytes,
            modified: self.modified,
            header: self.header@,
            walked: self.walked,
            export_exists: self.export_exists,
        }
    }
}

/// The recording that a file is; none where it is not one, so that a stray file is left out.
pub open spec fn recording_in(f: RecordingFileModel) -> Option<RecordingModel> {
    if is_header(f.header) {
        Some(
            RecordingModel {
                path: f.path,
                bytes: f.bytes,
                modified: f.modified,
                width: little4(f.header, 8) as u32,
                height: little4(f.header, 12) as u32,
                duration: f.walked.0,
                complete: f.walked.1,
                exported: if f.export_exists {
                    Some(with_extension(f.path, "mp4"@))
                } else {
                    None
                },
            },
        )
    } else {
        None
    }
}

/// The recording that a file is.
pub fn recognise(file: &RecordingFile) -> (r: Option<Recording>)
    ensures
        r.deep_view() == recording_in(file.deep_view()),
{
    match read_header(&file.header) {
        Some((width, height)) => {
            let exported = if file.export_exists {
                Some(extended(&file.path, "mp4"))
            } else {
                None
            };
            Some(
                Recording {
                    path: file.path.clone(),
                    bytes: file.bytes,
                    modified: file.modified,
                    width,
                    height,
                    duration: file.walked.0,
                    complete: file.walked.1,
                    exported,
                },
            )
        },
        None => None,
    }
}

/// Reads a recording that is in memory: its header, and what walking its records finds. `None`
/// when it is not a recording at all.
pub fn probe(
    path: &str,
    file: &[u8],
    modified: Option<i128>,
    export_exists: bool,
) -> (r: Option<Recording>)
    ensures
        r.deep_view() == recording_in(
            RecordingFileModel {
                path: path@,
                bytes: file@.len() as u64,
                modified,
                header: file@,
                walked: walk(file@, HEADER_LEN as int, None),
                export_exists,
            },
        ),
{
    let mut header: Vec<u8> = Vec::new();
    let mut i: usize = 0;
    while i < file.len()
        invariant
            i <= file@.len(),
            header@ == file@.take(i as int),
        decreases file@.len() - i,
    {
        header.push(file[i]);
        i = i + 1;
        assert(header@ =~= file@.take(i as int));
    }
    assert(header@ =~= file@);
    recognise(
        &RecordingFile {
            path: String::from_str(path),
            bytes: file.len() as u64,
            modified,
            header,
            walked: walk_records(file),
            export_exists,
        },
    )
}

/// A path's name carries the extension of recordings.
pub open spec fn is_recording_name(path: Seq<char>) -> bool {
    match file_name(path) {
        Some(name) => extension(name) == Some("rvr"@),
        None => false,
    }
}

/// Whether a file is named as recordings are.
pub fn named_as_recording(path: &str) -> (r: bool)
    ensures
        r == is_recording_name(path@),
{
    match name_of_path(path) {
        Some(name) => match extension_of(&name) {
            Some(ext) => equal(&ext, "rvr"),
            None => false,
        },
        None => false,
    }
}

/// One time was later than another; no time at all is the earliest.
pub open spec fn later(a: Option<i128>, b: Option<i128>) -> bool {
    match a {
        Some(x) => match b {
            Some(y) => x > y,
            None => true,
        },
        None => false,
    }
}

fn is_later(a: Option<i128>, b: Option<i128>) -> (r: bool)
    ensures
        r == later(a, b),
{
    match a {
        Some(x) => match b {
            Some(y) => x > y,
            None => true,
        },
        None => false,
    }
}

/// The newest recording comes first; of two from the same time the first by path.
impl Ranked for Recording {
    open spec fn le(a: RecordingModel, b: RecordingModel) -> bool {
        if later(a.modified, b.modified) {
            true
        } else if later(b.modified, a.modified) {
            false
        } else {
            path_le(a.path, b.path)
        }
    }

    fn at_most(&self, other: &Recording) -> (r: bool) {
        if is_later(self.modified, other.modified) {
            true
        } else if is_later(other.modified, self.modified) {
            false
        } else {
            no_later_path(&self.path, &other.path)
        }
    }
}

/// The recordings among the files of a folder, in the folder's order.
pub open spec fn recordings_among(files: Seq<RecordingFileModel>) -> Seq<RecordingModel> {
    files.filter_map(
        |f: RecordingFileModel|
            if is_recording_name(f.path) {
                recording_in(f)
            } else {
                None
            },
    )
}

/// Every recording in the folder, newest first.
pub fn recordings(files: &Vec<RecordingFile>) -> (r: Vec<Recording>)
    ensures
        r.deep_view() == by_rank::<Recording>(recordings_among(files.deep_view())),
{
    let ghost every = files.deep_view();
    let ghost f = |f: RecordingFileModel|
        if is_recording_name(f.path) {
            recording_in(f)
        } else {
            None
        };
    let mut out: Vec<Recording> = Vec::new();
    let mut i: usize = 0;
    while i < files.len()
        invariant
            i <= files.len(),
            every == files.deep_view(),
            f == (|f: RecordingFileModel|
                if is_recording_name(f.path) {
                    recording_in(f)
                } else {
                    None
                }),
            out.deep_view() == every.take(i as int).filter_map(f),
        decreases files.len() - i,
    {
        proof {
            lemma_filter_map_step(every, i as int, f);
            assert(every[i as int] == files@[i as int].deep_view());
        }
        let ghost before = out.deep_view();
        if named_as_recording(&files[i].path) {
            if let Some(recording) = recognise(&files[i]) {
                let ghost item = recording.deep_view();
                out.push(recording);
                assert(out.deep_view() =~= before.push(item));
            }
        }
        i = i + 1;
    }
    assert(every.take(i as int) =~= every);
    sort(out)
}

// ---------------------------------------------------------------------------
// Exporting
// ---------------------------------------------------------------------------

/// Whether `raven-export` is among the commands that are installed.
pub fn exporter_available(commands: &NameSet) -> (r: bool)
    ensures
        r == commands@.contains("raven-export"@),
{
    commands.contains("raven-export")
}

/// What an export reports while it runs.
#[derive(Debug, Clone, PartialEq, Eq)]
pub enum ExportEvent {
    /// A line of the exporter's own output, for the log.
    Log(String),
    /// Frames written so far, and the seconds of video they make up, as the exporter wrote them.
    Progress { frames: u64, seconds: String },
    Finished { ok: bool, message: String },
}

/// What an export reports.
#[verifier::ext_equal]
pub enum ExportModel {
    Log(Seq<char>),
    Progress(u64, Seq<char>),
    Finished(bool, Seq<char>),
}

impl DeepView for ExportEvent {
    type V = ExportModel;

    open spec fn deep_view(&self) -> ExportModel {
        match self {
            ExportEvent::Log(text) => ExportModel::Log(text@),
            ExportEvent::Progress { frames, seconds } => ExportModel::Progress(*frames, seconds@),
            ExportEvent::Finished { ok, message } => ExportModel::Finished(*ok, message@),
        }
    }
}

/// The command that exports a recording, the program first. An error where the exporter is not
/// installed.
pub fn export(exporter: Option<&str>, recording: &str, output: &str) -> (r: Result<
    Vec<String>,
    String,
>)
    ensures
        r is Ok == exporter is Some,
        match r {
            Ok(command) => command.deep_view() == seq![exporter->0@, recording@, "-o"@, output@],
            Err(message) => message@
                == "raven-export is not installed. It ships with the Raven desktop; install it to turn recordings into video."@,
        },
{
    match exporter {
        Some(program) => {
            let mut command: Vec<String> = Vec::new();
            command.push(String::from_str(program));
            command.push(String::from_str(recording));
            command.push(String::from_str("-o"));
            command.push(String::from_str(output));
            assert(command.deep_view() =~= seq![program@, recording@, "-o"@, output@]);
            Ok(command)
        },
        None => Err(
            String::from_str(
                "raven-export is not installed. It ships with the Raven desktop; install it to turn recordings into video.",
            ),
        ),
    }
}

/// What is said where the exporter could not be started.
pub fn export_start_failure(error: &str) -> (r: String)
    ensures
        r@ == "Could not start raven-export: "@ + error@,
{
    cat2("Could not start raven-export: ", error)
}

/// How the exporter ended.
#[derive(Debug)]
pub enum ExportEnd {
    Succeeded,
    /// It exited with this status.
    Exited(String),
    /// It could not be waited for, for this reason.
    Lost(String),
}

/// What an export reports last.
pub fn export_finished(end: &ExportEnd) -> (r: ExportEvent)
    ensures
        r.deep_view() == (match end {
            ExportEnd::Succeeded => ExportModel::Finished(true, "Exported"@),
            ExportEnd::Exited(status) => ExportModel::Finished(
                false,
                "raven-export exited with "@ + status@,
            ),
            ExportEnd::Lost(error) => ExportModel::Finished(
                false,
                "raven-export could not be waited for: "@ + error@,
            ),
        }),
{
    match end {
        ExportEnd::Succeeded => ExportEvent::Finished {
            ok: true,
            message: String::from_str("Exported"),
        },
        ExportEnd::Exited(status) => ExportEvent::Finished {
            ok: false,
            message: cat2("raven-export exited with ", status),
        },
        ExportEnd::Lost(error) => ExportEvent::Finished {
            ok: false,
            message: cat2("raven-export could not be waited for: ", error),
        },
    }
}

/// What a progress line such as "1234 frames, 41.1 s of video" says: the frames, and the seconds
/// as they are written.
pub open spec fn progress(line: Seq<char>) -> Option<(u64, Seq<char>)> {
    match find(line, " frames, "@) {
        Some(i) => match strip_suffix(line.skip(i + " frames, "@.len()), " s of video"@) {
            Some(seconds) => match u64_of(trim(line.take(i))) {
                Some(frames) => if is_real(trim(seconds)) {
                    Some((frames, trim(seconds)))
                } else {
                    None
                },
                None => None,
            },
            None => None,
        },
        None => None,
    }
}

/// `raven-export`'s progress line: "1234 frames, 41.1 s of video".
pub fn parse_progress(line: &str) -> (r: Option<(u64, String)>)
    ensures
        r.deep_view() == progress(line@),
{
    let chars = chars_of(line);
    let mark = chars_of(" frames, ");
    match found(&chars, &mark) {
        Some(i) => {
            let n: usize = chars.len();
            proof {
                crate::text::lemma_find(line@, " frames, "@);
            }
            let frames = part(&chars, 0, i);
            let rest = part(&chars, i + mark.len(), n);
            assert(frames@ =~= line@.take(i as int));
            assert(rest@ =~= line@.skip(i + mark.len()));
            match before_suffix(rest, &chars_of(" s of video")) {
                Some(seconds) => match read_u64(trimmed(frames)) {
                    Some(count) => {
                        let seconds = trimmed(seconds);
                        if reads_as_real(seconds) {
                            Some((count, string_of(seconds)))
                        } else {
                            None
                        }
                    },
                    None => None,
                },
                None => None,
            }
        },
        None => None,
    }
}

/// What a piece of the exporter's output reports: its progress, or a line for the log; nothing
/// where it is blank.
pub open spec fn report(text: Seq<char>) -> Option<ExportModel> {
    let text = trim(text);
    if text.len() == 0 {
        None
    } else {
        match progress(text) {
            Some((frames, seconds)) => Some(ExportModel::Progress(frames, seconds)),
            None => Some(ExportModel::Log(text)),
        }
    }
}

/// What a piece of the exporter's output reports.
pub fn export_event(text: &str) -> (r: Option<ExportEvent>)
    ensures
        r.deep_view() == report(text@),
{
    let chars = chars_of(text);
    let text = trimmed(&chars);
    if text.len() == 0 {
        return None;
    }
    let owned = string_of(text);
    match parse_progress(&owned) {
        Some((frames, seconds)) => Some(ExportEvent::Progress { frames, seconds }),
        None => Some(ExportEvent::Log(owned)),
    }
}

/// What is left of the exporter's output when it ends; nothing where it is blank.
pub fn last_words(text: &str) -> (r: Option<ExportEvent>)
    ensures
        r.deep_view() == (if trim(text@).len() == 0 {
            None
        } else {
            Some(ExportModel::Log(trim(text@)))
        }),
{
    let chars = chars_of(text);
    let text = trimmed(&chars);
    if text.len() == 0 {
        None
    } else {
        Some(ExportEvent::Log(string_of(text)))
    }
}

/// The text that bytes stand for in UTF-8, with a replacement character for what is no UTF-8.
pub uninterp spec fn utf8_lossy(bytes: Seq<u8>) -> Seq<char>;

/// `String::from_utf8_lossy`: the text of some bytes, a function of the bytes alone.
#[verifier::external_body]
pub(crate) fn text_from(bytes: &[u8]) -> (r: String)
    ensures
        r@ == utf8_lossy(bytes@),
{
    String::from_utf8_lossy(bytes).into_owned()
}

/// A byte ends a piece of output: a line feed, or the carriage return of a progress display.
pub open spec fn is_break(b: u8) -> bool {
    b == 10 || b == 13
}

/// Where the first piece of some output ends.
pub open spec fn first_break(s: Seq<u8>) -> int
    decreases s.len(),
{
    if s.len() == 0 || is_break(s[0]) {
        0
    } else {
        1 + first_break(s.skip(1))
    }
}

/// The pieces of some output that are ended.
pub open spec fn ended(s: Seq<u8>) -> Seq<Seq<u8>>
    decreases s.len(),
{
    let k = first_break(s);
    if 0 <= k < s.len() {
        seq![s.take(k)] + ended(s.skip(k + 1))
    } else {
        Seq::empty()
    }
}

/// What follows the last piece of some output that is ended.
pub open spec fn unended(s: Seq<u8>) -> Seq<u8>
    decreases s.len(),
{
    let k = first_break(s);
    if 0 <= k < s.len() {
        unended(s.skip(k + 1))
    } else {
        s
    }
}

/// What pieces of output report.
pub open spec fn reports(pieces: Seq<Seq<u8>>) -> Seq<ExportModel> {
    pieces.filter_map(|piece: Seq<u8>| report(utf8_lossy(piece)))
}

proof fn lemma_first_break(s: Seq<u8>)
    ensures
        0 <= first_break(s) <= s.len(),
        first_break(s) < s.len() ==> is_break(s[first_break(s)]),
        forall|j: int| 0 <= j < first_break(s) ==> !is_break(#[trigger] s[j]),
    decreases s.len(),
{
    if s.len() > 0 && !is_break(s[0]) {
        let t = s.skip(1);
        lemma_first_break(t);
        assert forall|j: int| 0 <= j < first_break(s) implies !is_break(#[trigger] s[j]) by {
            if j > 0 {
                assert(t[j - 1] == s[j]);
            }
        }
        if first_break(s) < s.len() {
            assert(t[first_break(t)] == s[first_break(s)]);
        }
    }
}

proof fn lemma_break_is(s: Seq<u8>, k: int)
    requires
        0 <= k <= s.len(),
        k < s.len() ==> is_break(s[k]),
        forall|j: int| 0 <= j < k ==> !is_break(#[trigger] s[j]),
    ensures
        first_break(s) == k,
{
    lemma_first_break(s);
    let f = first_break(s);
    if f < k {
        assert(!is_break(s[f]));
    } else if f > k {
        assert(!is_break(s[k]));
    }
}

/// The exporter's output as it arrives, in chunks that end anywhere.
#[derive(Debug)]
pub struct ExportReader {
    buffer: Vec<u8>,
}

impl View for ExportReader {
    type V = Seq<u8>;

    closed spec fn view(&self) -> Seq<u8> {
        self.buffer@
    }
}

impl ExportReader {
    /// A reader that nothing has arrived at.
    pub fn new() -> (r: ExportReader)
        ensures
            r@ == Seq::<u8>::empty(),
    {
        ExportReader { buffer: Vec::new() }
    }

    /// Takes a chunk of output, and gives what the pieces that it ends report. What follows the
    /// last of them waits for the next chunk.
    pub fn take(&mut self, chunk: &[u8]) -> (r: Vec<ExportEvent>)
        ensures
            r.deep_view() == reports(ended(old(self)@ + chunk@)),
            final(self)@ == unended(old(self)@ + chunk@),
    {
        let ghost all = self@ + chunk@;
        let mut buffer: Vec<u8> = Vec::new();
        let mut k: usize = 0;
        while k < self.buffer.len()
            invariant
                k <= self.buffer.len(),
                buffer@ == self.buffer@.take(k as int),
            decreases self.buffer.len() - k,
        {
            buffer.push(self.buffer[k]);
            k = k + 1;
            assert(buffer@ =~= self.buffer@.take(k as int));
        }
        assert(buffer@ =~= self@);
        k = 0;
        while k < chunk.len()
            invariant
                k <= chunk@.len(),
                buffer@ == self@ + chunk@.take(k as int),
            decreases chunk@.len() - k,
        {
            buffer.push(chunk[k]);
            k = k + 1;
            assert(buffer@ =~= self@ + chunk@.take(k as int));
        }
        assert(chunk@.take(k as int) =~= chunk@);
        assert(buffer@ == all);
        let ghost f = |piece: Seq<u8>| report(utf8_lossy(piece));
        let ghost mut done: Seq<Seq<u8>> = Seq::empty();
        let mut events: Vec<ExportEvent> = Vec::new();
        let n: usize = buffer.len();
        let mut start: usize = 0;
        let mut i: usize = 0;
        proof {
            assert(all.skip(0) =~= all);
            assert(done + ended(all) =~= ended(all));
            reveal(Seq::filter_map);
            assert(events.deep_view() =~= done.filter_map(f));
        }
        while i < n
            invariant
                n == buffer.len(),
                start <= i <= n,
                buffer@ == all,
                f == (|piece: Seq<u8>| report(utf8_lossy(piece))),
                forall|j: int| start <= j < i ==> !is_break(#[trigger] all[j]),
                ended(all) == done + ended(all.skip(start as int)),
                unended(all) == unended(all.skip(start as int)),
                events.deep_view() == done.filter_map(f),
            decreases n - i,
        {
            let b: u8 = buffer[i];
            if b == 10 || b == 13 {
                let piece = slice_subrange(buffer.as_slice(), start, i);
                let ghost rest = all.skip(start as int);
                proof {
                    let m = i - start;
                    assert(rest[m] == all[i as int]);
                    assert forall|j: int| 0 <= j < m implies !is_break(#[trigger] rest[j]) by {
                        assert(rest[j] == all[start + j]);
                    }
                    lemma_break_is(rest, m);
                    assert(rest.take(m) =~= piece@);
                    assert(rest.skip(m + 1) =~= all.skip(i + 1));
                    let next = done.push(piece@);
                    assert(next + ended(all.skip(i + 1)) =~= done + (seq![piece@] + ended(
                        all.skip(i + 1),
                    )));
                    lemma_filter_map_step(next, done.len() as int, f);
                    assert(next.take(done.len() as int) =~= done);
                    assert(next.take(done.len() as int + 1) =~= next);
                    done = next;
                }
                let ghost before = events.deep_view();
                if let Some(event) = export_event(&text_from(piece)) {
                    let ghost item = event.deep_view();
                    events.push(event);
                    assert(events.deep_view() =~= before.push(item));
                }
                start = i + 1;
            }
            i = i + 1;
        }
        let ghost rest = all.skip(start as int);
        proof {
            assert forall|j: int| 0 <= j < rest.len() implies !is_break(#[trigger] rest[j]) by {
                assert(rest[j] == all[start + j]);
            }
            lemma_break_is(rest, rest.len() as int);
            assert(done + Seq::<Seq<u8>>::empty() =~= done);
        }
        let mut left: Vec<u8> = Vec::new();
        let mut k: usize = start;
        while k < n
            invariant
                n == buffer.len(),
                start <= k <= n,
                buffer@ == all,
                left@ == all.subrange(start as int, k as int),
            decreases n - k,
        {
            left.push(buffer[k]);
            k = k + 1;
            assert(left@ =~= all.subrange(start as int, k as int));
        }
        assert(left@ =~= rest);
        self.buffer = left;
        events
    }

    /// What the output that is left reports when the exporter has ended.
    pub fn finish(&self) -> (r: Option<ExportEvent>)
        ensures
            r.deep_view() == (if self@.len() == 0 || trim(utf8_lossy(self@)).len() == 0 {
                None
            } else {
                Some(ExportModel::Log(trim(utf8_lossy(self@))))
            }),
    {
        if self.buffer.len() == 0 {
            return None;
        }
        last_words(&text_from(&self.buffer))
    }
}

/// The command that opens a folder or a file: the desktop's own file manager, or else what the
/// desktop uses for anything. An error where there is neither.
pub fn open_in_file_manager(
    raven_files: Option<&str>,
    xdg_open: Option<&str>,
    path: &str,
) -> (r: Result<Vec<String>, String>)
    ensures
        r is Ok == (raven_files is Some || xdg_open is Some),
        match r {
            Ok(command) => command.deep_view() == seq![
                if raven_files is Some {
                    raven_files->0@
                } else {
                    xdg_open->0@
                },
                path@,
            ],
            Err(message) => message@ == "No file manager is available to open this"@,
        },
{
    let opener: Option<&str> = match raven_files {
        Some(program) => Some(program),
        None => xdg_open,
    };
    match opener {
        Some(program) => {
            let mut command: Vec<String> = Vec::new();
            command.push(String::from_str(program));
            command.push(String::from_str(path));
            assert(command.deep_view() =~= seq![program@, path@]);
            Ok(command)
        },
        None => Err(String::from_str("No file manager is available to open this")),
    }
}

/// What is said where a path could not be opened.
pub fn open_failure(path: &str, error: &str) -> (r: String)
    ensures
        r@ == "Could not open "@ + path@ + ": "@ + error@,
{
    cat4("Could not open ", path, ": ", error)
}

// ---------------------------------------------------------------------------
// Laws
// ---------------------------------------------------------------------------

/// A walk that is handed the bytes of a file where it wants them comes to what walking the whole
/// file finds, however the bytes are fetched.
pub proof fn a_step_keeps_the_outcome(w: Walk, file: Seq<u8>)
    requires
        !w.over && !w.complete,
        w.offset + RECORD_HEADER_LEN <= file.len() <= u64::MAX,
    ensures
        outcome(
            walked_on(
                w,
                Some(file.subrange(w.offset as int, w.offset + RECORD_HEADER_LEN)),
            ),
            file,
        ) == outcome(w, file),
{
    let at = w.offset as int;
    let h = file.subrange(at, at + RECORD_HEADER_LEN);
    assert(h[0] == file[at]);
    assert(little4(h, 1) == little4(file, at + 1));
    assert(little4(h, 5) == little4(file, at + 5));
    assert(little4(h, 9) == little4(file, at + 9));
    reveal_with_fuel(walk, 2);
}

/// A walk that wants nothing more has found what walking the whole file finds.
pub proof fn a_walk_ends_with_its_outcome(w: Walk, file: Seq<u8>)
    requires
        w.over || (w.offset + RECORD_HEADER_LEN > file.len() && !w.complete),
    ensures
        outcome(w, file) == (w.last, w.complete),
{
}

/// A recording has a length exactly when the header of a record fits behind its own, and it is
/// complete only when it has one.
pub proof fn a_length_needs_a_record(file: Seq<u8>)
    ensures
        walk(file, HEADER_LEN as int, None).0 is Some <==> file.len() >= HEADER_LEN
            + RECORD_HEADER_LEN,
        walk(file, HEADER_LEN as int, None).1 ==> walk(file, HEADER_LEN as int, None).0 is Some,
{
    if file.len() >= HEADER_LEN + RECORD_HEADER_LEN {
        let pts = Some(little8(file, HEADER_LEN + 1) as u64);
        lemma_walk_keeps_a_length(
            file,
            HEADER_LEN + RECORD_HEADER_LEN + little4(file, HEADER_LEN + 9),
            pts,
        );
    }
}

proof fn lemma_walk_keeps_a_length(file: Seq<u8>, offset: int, last: Option<u64>)
    requires
        last is Some,
    ensures
        walk(file, offset, last).0 is Some,
    decreases
            (if offset > file.len() {
                0
            } else {
                file.len() - offset
            }),
{
    if 0 <= offset && offset + RECORD_HEADER_LEN <= file.len() {
        lemma_walk_keeps_a_length(
            file,
            offset + RECORD_HEADER_LEN + little4(file, offset + 9),
            Some(little8(file, offset + 1) as u64),
        );
    }
}

/// A record as it is written: its kind, its timestamp, a checksum and a payload.
pub struct Record {
    pub kind: u8,
    pub pts: u64,
    pub check: Seq<u8>,
    pub payload: Seq<u8>,
}

/// A number in four bytes, the lowest first.
pub open spec fn bytes4(n: int) -> Seq<u8> {
    seq![
        (n % 0x100) as u8,
        (n / 0x100 % 0x100) as u8,
        (n / 0x1_0000 % 0x100) as u8,
        (n / 0x100_0000 % 0x100) as u8,
    ]
}

/// The bytes of a record.
pub open spec fn record_bytes(r: Record) -> Seq<u8> {
    seq![r.kind] + bytes4(r.pts as int % 0x1_0000_0000) + bytes4(r.pts as int / 0x1_0000_0000)
        + bytes4(r.payload.len() as int) + r.check + r.payload
}

/// The bytes of records in a row.
pub open spec fn records_bytes(records: Seq<Record>) -> Seq<u8>
    decreases records.len(),
{
    if records.len() == 0 {
        Seq::empty()
    } else {
        record_bytes(records[0]) + records_bytes(records.skip(1))
    }
}

/// A record can be written: its checksum takes four bytes, and the length of its payload fits.
pub open spec fn can_be_written(r: Record) -> bool {
    r.check.len() == 4 && r.payload.len() <= u32::MAX
}

/// What the walk over records is to find: the timestamp of the last one up to the end marker, and
/// whether there is such a marker.
pub open spec fn told(records: Seq<Record>, last: Option<u64>) -> (Option<u64>, bool)
    decreases records.len(),
{
    if records.len() == 0 {
        (last, false)
    } else if records[0].kind == KIND_END {
        (Some(records[0].pts), true)
    } else {
        told(records.skip(1), Some(records[0].pts))
    }
}

proof fn lemma_bytes4(n: int, s: Seq<u8>, at: int)
    requires
        0 <= n <= u32::MAX,
        0 <= at,
        at + 4 <= s.len(),
        s.subrange(at, at + 4) == bytes4(n),
    ensures
        little4(s, at) == n,
{
    let four = s.subrange(at, at + 4);
    assert(four[0] == s[at] && four[1] == s[at + 1] && four[2] == s[at + 2] && four[3] == s[at
        + 3]);
}

/// What is written is read back: behind any start, a file that ends in records tells the walk the
/// last timestamp and whether the recording was ended.
pub proof fn records_are_read_back(
    start: Seq<u8>,
    records: Seq<Record>,
    last: Option<u64>,
)
    requires
        forall|i: int| 0 <= i < records.len() ==> can_be_written(#[trigger] records[i]),
    ensures
        walk(start + records_bytes(records), start.len() as int, last) == told(records, last),
    decreases records.len(),
{
    let file = start + records_bytes(records);
    if records.len() == 0 {
        assert(file =~= start);
    } else {
        let r = records[0];
        let one = record_bytes(r);
        let rest = records.skip(1);
        let at = start.len() as int;
        assert(can_be_written(r));
        assert(one.len() == RECORD_HEADER_LEN + r.payload.len());
        assert(file =~= start + one + records_bytes(rest));
        assert(file[at] == one[0]);
        assert(file.subrange(at + 1, at + 5) =~= bytes4(r.pts as int % 0x1_0000_0000));
        assert(file.subrange(at + 5, at + 9) =~= bytes4(r.pts as int / 0x1_0000_0000));
        assert(file.subrange(at + 9, at + 13) =~= bytes4(r.payload.len() as int));
        lemma_bytes4(r.pts as int % 0x1_0000_0000, file, at + 1);
        lemma_bytes4(r.pts as int / 0x1_0000_0000, file, at + 5);
        lemma_bytes4(r.payload.len() as int, file, at + 9);
        assert(little8(file, at + 1) == r.pts);
        if r.kind != KIND_END {
            assert forall|i: int| 0 <= i < rest.len() implies can_be_written(
                #[trigger] rest[i],
            ) by {
                assert(can_be_written(records[i + 1]));
            }
            records_are_read_back(start + one, rest, Some(r.pts));
        }
    }
}

/// Recordings can be ranked: of two one comes no later, and the order is transitive.
pub proof fn recordings_can_be_ranked()
    ensures
        ranks(|a: RecordingModel, b: RecordingModel| <Recording as Ranked>::le(a, b)),
{
    let le = |a: RecordingModel, b: RecordingModel| <Recording as Ranked>::le(a, b);
    assert forall|a: RecordingModel, b: RecordingModel| #[trigger] le(a, b) || le(b, a) by {
        path_le_total(a.path, b.path);
    }
    assert forall|a: RecordingModel, b: RecordingModel, c: RecordingModel|
        #[trigger] le(a, b) && #[trigger] le(b, c) implies le(a, c) by {
        if !later(a.modified, b.modified) && !later(b.modified, c.modified) {
            path_le_transitive(a.path, b.path, c.path);
        }
    }
}

/// The list of recordings is newest first.
pub proof fn recordings_are_newest_first(files: Seq<RecordingFileModel>, i: int, j: int)
    requires
        0 <= i < j < by_rank::<Recording>(recordings_among(files)).len(),
    ensures
        !later(
            by_rank::<Recording>(recordings_among(files))[j].modified,
            by_rank::<Recording>(recordings_among(files))[i].modified,
        ),
{
    let le = |a: RecordingModel, b: RecordingModel| <Recording as Ranked>::le(a, b);
    let found = recordings_among(files);
    recordings_can_be_ranked();
    sorting_orders(found, le);
    let out = by_rank::<Recording>(found);
    assert(in_order(out, le));
    assert(le(out[i], out[j]));
}

/// Output that arrives in two chunks ends the same pieces, and leaves the same, as output that
/// arrives in one.
pub proof fn chunks_do_not_matter(a: Seq<u8>, b: Seq<u8>)
    ensures
        ended(a + b) == ended(a) + ended(unended(a) + b),
        unended(a + b) == unended(unended(a) + b),
    decreases a.len(),
{
    let k = first_break(a);
    lemma_first_break(a);
    if k < a.len() {
        let all = a + b;
        assert forall|j: int| 0 <= j < k implies !is_break(#[trigger] all[j]) by {
            assert(all[j] == a[j]);
        }
        assert(all[k] == a[k]);
        lemma_break_is(all, k);
        assert(all.take(k) =~= a.take(k));
        assert(all.skip(k + 1) =~= a.skip(k + 1) + b);
        chunks_do_not_matter(a.skip(k + 1), b);
        let tail = a.skip(k + 1);
        assert(ended(all) =~= ended(a) + ended(unended(a) + b));
    } else {
        assert(ended(a) + ended(a + b) =~= ended(a + b));
    }
}

/// Output that arrives in two chunks is reported as output that arrives in one.
pub proof fn chunks_are_reported_alike(a: Seq<u8>, b: Seq<u8>)
    ensures
        reports(ended(a + b)) == reports(ended(a)) + reports(ended(unended(a) + b)),
{
    chunks_do_not_matter(a, b);
    lemma_filter_map_add(
        ended(a),
        ended(unended(a) + b),
        |piece: Seq<u8>| report(utf8_lossy(piece)),
    );
}

/// A recording is told by the six letters at its front and a header of twenty bytes; its width and its
/// height stand in that, and how long it is and whether it was ended are what walking it found.
pub proof fn a_header_is_read_back(
    f: RecordingFileModel,
    version: Seq<u8>,
    width: u32,
    height: u32,
    rest: Seq<u8>,
)
    requires
        version.len() == 2,
        rest.len() >= 4,
        f.header == seq![82u8, 86, 78, 82, 69, 67] + version + bytes4(width as int) + bytes4(height as int)
            + rest,
    ensures
        recording_in(f) is Some,
        recording_in(f)->0.width == width,
        recording_in(f)->0.height == height,
        recording_in(f)->0.path == f.path,
        recording_in(f)->0.bytes == f.bytes,
        recording_in(f)->0.modified == f.modified,
        recording_in(f)->0.duration == f.walked.0,
        recording_in(f)->0.complete == f.walked.1,
        f.export_exists ==> recording_in(f)->0.exported == Some(with_extension(f.path, "mp4"@)),
        !f.export_exists ==> recording_in(f)->0.exported is None,
{
    let h = f.header;
    assert(h.take(6) =~= magic());
    assert(h.subrange(8, 12) =~= bytes4(width as int));
    assert(h.subrange(12, 16) =~= bytes4(height as int));
    lemma_bytes4(width as int, h, 8);
    lemma_bytes4(height as int, h, 12);
}

/// A file that is shorter than the header, or starts with other letters, is no recording.
pub proof fn other_files_are_no_recordings(f: RecordingFileModel, i: int)
    ensures
        f.header.len() < 20 ==> recording_in(f) is None,
        0 <= i < 6 && f.header.len() >= 6 && f.header[i] != seq![82u8, 86, 78, 82, 69, 67][i]
            ==> recording_in(f) is None,
{
    if 0 <= i < 6 && f.header.len() >= 6 && f.header[i] != seq![82u8, 86, 78, 82, 69, 67][i] {
        assert(f.header.take(6)[i] == f.header[i]);
        assert(magic()[i] == seq![82u8, 86, 78, 82, 69, 67][i]);
    }
}

/// A recording is ended by a record of the kind that ends one, which is the second; its length is the
/// timestamp of the last record before it is cut off.
pub proof fn a_recording_ends_with_its_marker(
    start: Seq<u8>,
    records: Seq<Record>,
    last: Record,
    after: Seq<Record>,
)
    requires
        forall|i: int|
            0 <= i < records.len() ==> can_be_written(#[trigger] records[i]) && records[i].kind != 2,
        can_be_written(last),
        forall|i: int| 0 <= i < after.len() ==> can_be_written(#[trigger] after[i]),
    ensures
        last.kind == 2 ==> walk(
            start + records_bytes(records + seq![last] + after),
            start.len() as int,
            None,
        ) == (Some(last.pts), true),
        last.kind != 2 ==> walk(
            start + records_bytes(records + seq![last]),
            start.len() as int,
            None,
        ) == (Some(last.pts), false),
{
    let all = records + seq![last] + after;
    assert forall|i: int| 0 <= i < all.len() implies can_be_written(#[trigger] all[i]) by {
        if i < records.len() {
            assert(can_be_written(records[i]));
        } else if i > records.len() {
            assert(can_be_written(after[i - records.len() - 1]));
        }
    }
    let short = records + seq![last];
    assert forall|i: int| 0 <= i < short.len() implies can_be_written(#[trigger] short[i]) by {
        if i < records.len() {
            assert(can_be_written(records[i]));
        }
    }
    records_are_read_back(start, all, None);
    records_are_read_back(start, short, None);
    if last.kind == 2 {
        lemma_told(records, last, after, None);
    } else {
        let none = Seq::<Record>::empty();
        assert(short =~= records + seq![last] + none);
        lemma_told(records, last, none, None);
    }
}

proof fn lemma_told(records: Seq<Record>, last: Record, after: Seq<Record>, pts: Option<u64>)
    requires
        forall|i: int| 0 <= i < records.len() ==> (#[trigger] records[i]).kind != 2,
    ensures
        last.kind == 2 ==> told(records + seq![last] + after, pts) == (Some(last.pts), true),
        last.kind != 2 && after.len() == 0 ==> told(records + seq![last] + after, pts) == (
            Some(last.pts),
            false,
        ),
    decreases records.len(),
{
    let all = records + seq![last] + after;
    if records.len() == 0 {
        assert(all[0] == last);
        if after.len() == 0 {
            assert(all.skip(1).len() == 0);
        }
        reveal_with_fuel(told, 2);
    } else {
        assert(all[0] == records[0]);
        assert(all.skip(1) =~= records.skip(1) + seq![last] + after);
        assert(records[0].kind != 2);
        assert forall|i: int| 0 <= i < records.skip(1).len() implies (#[trigger] records.skip(1)[i]).kind
            != 2 by {
            assert(records[i + 1].kind != 2);
        }
        lemma_told(records.skip(1), last, after, Some(records[0].pts));
    }
}

/// A length is said in the two largest units that it fills: hours and minutes, minutes and seconds, or
/// seconds alone, the smaller one with two digits.
pub proof fn lengths_are_said_in_two_units(hours: int, minutes: int, seconds: int)
    requires
        0 <= hours,
        0 <= minutes < 60,
        0 <= seconds < 60,
    ensures
        length_text(seconds) == decimal(seconds) + "s"@,
        minutes > 0 ==> length_text(60 * minutes + seconds) == decimal(minutes) + "m "@ + zero_padded(
            decimal(seconds),
            2,
        ) + "s"@,
        hours > 0 ==> length_text(3600 * hours + 60 * minutes + seconds) == decimal(hours) + "h "@
            + zero_padded(decimal(minutes), 2) + "m"@,
{
    let m = 60 * minutes + seconds;
    assert(m / 60 == minutes && m % 60 == seconds);
    let h = 3600 * hours + m;
    assert(h / 3600 == hours && h % 3600 == m);
}

/// Videos stand where the session says, else where the user's directories are configured to be, else in
/// `Videos` in the home directory.
pub proof fn videos_stand_where_the_session_says(
    home: Seq<char>,
    videos: Option<Seq<char>>,
    text: Seq<char>,
)
    ensures
        videos is Some ==> videos_place(Some(home), videos, Some(text)) == videos->0,
        videos is None && user_dir(text, "XDG_VIDEOS_DIR"@, home) is Some ==> videos_place(
            Some(home),
            videos,
            Some(text),
        ) == user_dir(text, "XDG_VIDEOS_DIR"@, home)->0,
        videos is None && user_dir(text, "XDG_VIDEOS_DIR"@, home) is None ==> videos_place(
            Some(home),
            videos,
            Some(text),
        ) == crate::path::join(home, "Videos"@),
        videos is None ==> videos_place(Some(home), videos, None) == crate::path::join(home, "Videos"@),
{
}

/// A user's directory is read from the first line that sets it: below the home directory where the line
/// says so, as it is where it does not, and not at all from a comment.
pub proof fn user_directories_are_read_from_their_line(
    text: Seq<char>,
    key: Seq<char>,
    home: Seq<char>,
    i: int,
    rest: Seq<char>,
)
    requires
        0 <= i < lines(text).len(),
        key.len() > 0 && key[0] != '#' && !key.contains('=') && !crate::text::is_space(key[0]),
        rest.len() > 0 && rest[0] != '"' && rest.last() != '"',
        lines(text)[i] == key + "=\"$HOME/"@ + rest + "\""@,
        forall|j: int| 0 <= j < i ==> !key.is_prefix_of(trim(#[trigger] lines(text)[j])),
    ensures
        user_dir(text, key, home) == Some(crate::path::join(home, rest)),
{
    reveal_strlit("=\"$HOME/");
    reveal_strlit("$HOME/");
    reveal_strlit("\"");
    reveal_strlit("#");
    let line = lines(text)[i];
    let p = |line: Seq<char>| sets(line, key);
    assert(line[0] == key[0] && line.last() == '"');
    crate::text::tight_text_is_kept(line);
    if "#"@.is_prefix_of(line) {
        assert(line.subrange(0, 1)[0] == '#');
    }
    assert(line.subrange(0, key.len() as int) =~= key);
    assert forall|j: int| 0 <= j < i implies !p(#[trigger] lines(text)[j]) by {
        assert(!key.is_prefix_of(trim(lines(text)[j])));
    }
    lemma_first_is(lines(text), p, i);
    let value = "\""@ + "$HOME/"@ + rest + "\""@;
    assert(line =~= key.push('=') + value);
    crate::text::lemma_find_char(line, '=');
    let at = crate::text::find_char(line, '=');
    assert(line[key.len() as int] == '=');
    if at < key.len() {
        assert(key[at] == line[at]);
        assert(key.contains('='));
    }
    assert(line.take(at) =~= key);
    assert(line.skip(at + 1) =~= value);
    assert(value[0] == '"' && value.last() == '"');
    crate::text::tight_text_is_kept(value);
    let inner = "$HOME/"@ + rest;
    assert(value.skip(1) =~= inner + "\""@);
    assert(inner[0] == '$');
    assert((inner + "\""@)[0] == '$');
    assert(crate::text::trim_start_char(inner + "\""@, '"') == inner + "\""@);
    assert(crate::text::trim_start_char(value, '"') == inner + "\""@);
    assert((inner + "\""@).drop_last() =~= inner);
    assert(inner.last() == rest.last());
    assert(crate::text::trim_end_char(inner, '"') == inner);
    assert(trim_char(value, '"') == inner);
    assert(inner.subrange(0, "$HOME/"@.len() as int) =~= "$HOME/"@);
    assert(inner.skip("$HOME/"@.len() as int) =~= rest);
}

/// The exporter's progress is read from its line: how many frames it has written, and how many seconds of
/// video they are, as it wrote them.
pub proof fn progress_is_read_back(frames: u64, seconds: Seq<char>)
    requires
        is_real(seconds),
        seconds.len() > 0 && crate::text::is_tight(seconds),
    ensures
        progress(decimal(frames as int) + " frames, "@ + seconds + " s of video"@) == Some(
            (frames, seconds),
        ),
{
    reveal_strlit(" frames, ");
    let d = decimal(frames as int);
    let p = " frames, "@;
    let tail = " s of video"@;
    let line = d + p + seconds + tail;
    crate::number::lemma_written(frames as int, 10);
    crate::number::written_reads_back(frames as int, 10, u64::MAX as int);
    let at = d.len() as int;
    assert(line.skip(at) =~= p + (seconds + tail));
    assert((p + (seconds + tail)).subrange(0, p.len() as int) =~= p);
    assert forall|j: int| 0 <= j < at implies !p.is_prefix_of(#[trigger] line.skip(j)) by {
        if p.is_prefix_of(line.skip(j)) {
            assert(line.skip(j).subrange(0, p.len() as int)[0] == ' ');
            assert(line.skip(j)[0] == d[j]);
            assert(crate::text::is_digit(d[j]));
        }
    }
    crate::text::a_pattern_is_found_where_it_begins(line, p, at);
    assert(line.take(at) =~= d);
    assert(crate::text::is_digit(d[0]));
    assert(crate::text::is_digit(d.last()));
    crate::text::tight_text_is_kept(d);
    let rest = line.skip(at + p.len());
    assert(rest =~= seconds + tail);
    assert(rest.subrange(rest.len() - tail.len(), rest.len() as int) =~= tail);
    assert(rest.take(rest.len() - tail.len()) =~= seconds);
    crate::text::tight_text_is_kept(seconds);
}

/// A piece of the exporter's output is progress where it reads as that, and else a line for the log; what
/// is blank is nothing.
pub proof fn output_is_progress_or_a_line(text: Seq<char>)
    ensures
        trim(text).len() == 0 ==> report(text) is None,
        trim(text).len() > 0 && progress(trim(text)) is None ==> report(text) == Some(
            ExportModel::Log(trim(text)),
        ),
        trim(text).len() > 0 && progress(trim(text)) is Some ==> report(text) == Some(
            ExportModel::Progress((progress(trim(text))->0).0, (progress(trim(text))->0).1),
        ),
{
}

/// A recording is listed exactly where its file is named as recordings are and holds one.
pub proof fn every_recording_is_listed(files: Seq<RecordingFileModel>, r: RecordingModel)
    ensures
        recordings_among(files).contains(r) <==> exists|i: int|
            0 <= i < files.len() && (file_name((#[trigger] files[i]).path) is Some && extension(
                file_name(files[i].path)->0,
            ) == Some("rvr"@)) && recording_in(files[i]) == Some(r),
{
    let f = |f: RecordingFileModel|
        if is_recording_name(f.path) {
            recording_in(f)
        } else {
            None
        };
    crate::lists::lemma_picked(files, f, r);
    if recordings_among(files).contains(r) {
        let i = choose|i: int| 0 <= i < files.len() && f(#[trigger] files[i]) == Some(r);
        assert(recording_in(files[i]) == Some(r));
    }
    if exists|i: int|
        0 <= i < files.len() && (file_name((#[trigger] files[i]).path) is Some && extension(
            file_name(files[i].path)->0,
        ) == Some("rvr"@)) && recording_in(files[i]) == Some(r) {
        let i = choose|i: int|
            0 <= i < files.len() && (file_name((#[trigger] files[i]).path) is Some && extension(
                file_name(files[i].path)->0,
            ) == Some("rvr"@)) && recording_in(files[i]) == Some(r);
        assert(f(files[i]) == Some(r));
    }
}

/// Of two recordings of the list the first is no older; one whose time is not known comes after every one
/// whose time is.
pub proof fn newer_recordings_come_first(files: Seq<RecordingFileModel>, i: int, j: int)
    requires
        0 <= i < j < by_rank::<Recording>(recordings_among(files)).len(),
    ensures
        by_rank::<Recording>(recordings_among(files))[j].modified is Some ==> by_rank::<Recording>(
            recordings_among(files),
        )[i].modified is Some && by_rank::<Recording>(recordings_among(files))[i].modified->0
            >= by_rank::<Recording>(recordings_among(files))[j].modified->0,
{
    recordings_are_newest_first(files, i, j);
}

/// What is said of a recording is its size on screen, its length, its size on disk, and that it was cut
/// short where it was.
pub proof fn a_recording_cut_short_says_so(r: RecordingModel, micros: u64)
    ensures
        recording_detail(r)[0] == decimal(r.width as int) + " × "@ + decimal(r.height as int),
        r.duration == Some(micros) ==> recording_detail(r)[1] == length_text(micros as int / 1_000_000)
            && recording_detail(r)[2] == bytes_text(r.bytes),
        r.duration is None ==> recording_detail(r)[1] == bytes_text(r.bytes),
        !r.complete ==> recording_detail(r).last() == "cut short"@,
        r.complete ==> recording_detail(r).last() == bytes_text(r.bytes),
{
}

} // verus!
