//! The logic of Raven Gaming: what stands between a computer and a game that runs, and what can be
//! done about it.
//!
//! Nothing here reads a file, starts a program or draws a window. A function is handed what was
//! read — the text of a file, the names in a directory, the output of a program, a set of paths
//! that exist — and gives back plain values: what was recognised, what a page shows, the command to
//! run, the files to write, or the words for what went wrong.
//!
//! * [`gpu`], [`drivers`], [`checks`]: the cards, the packages and modules they need, and the list
//!   of everything that matters with what would mend it.
//! * [`tune`], [`audio`], [`telemetry`]: settings of the system, the privileged actions that change
//!   them, and the readings.
//! * [`games`], [`emulators`], [`tools`], [`controllers`]: what is installed and how it is started.
//! * [`capture`], [`share`], [`install`]: recordings, screen sharing, and packages.
//! * [`window`], [`overview`], [`graphics`], [`performance`], [`library`], [`clips`], [`sharing`],
//!   [`rail`], [`search`], [`tasks`], [`dialogs`], [`view`], [`art`]: what the window shows, and what
//!   pressing a button does.
//! * [`text`], [`number`], [`path`], [`order`], [`lists`], [`collections`], [`query`], [`binary`],
//!   [`casing`], [`json`]: the means.
use vstd::prelude::*;

pub mod art;
pub mod audio;
pub mod binary;
pub mod capture;
pub mod casing;
pub mod checks;
pub mod clips;
pub mod collections;
pub mod controllers;
pub mod dialogs;
pub mod drivers;
pub mod emulators;
pub mod games;
pub mod gpu;
pub mod graphics;
pub mod install;
pub mod json;
pub mod library;
pub mod lists;
pub mod number;
pub mod order;
pub mod overview;
pub mod path;
pub mod performance;
pub mod query;
pub mod rail;
pub mod search;
pub mod share;
pub mod sharing;
pub mod tasks;
pub mod telemetry;
pub mod text;
pub mod tools;
pub mod tune;
pub mod view;
pub mod window;

verus! {

} // verus!
