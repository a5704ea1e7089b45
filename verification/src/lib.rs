//! ClipForge domain core: the project model, the command/undo machinery,
//! timeline maths, background music layout, export planning and the small
//! pure helpers around them. Everything here is a function of its inputs.

pub mod args;
pub mod catalog;
pub mod checks;
pub mod command;
pub mod digits;
pub mod edits;
pub mod editor;
pub mod encoders;
pub mod exporter;
pub mod history;
pub mod format;
pub mod frames;
pub mod ids;
pub mod keys;
pub mod jobs;
pub mod lane;
pub mod language;
pub mod library;
pub mod moves;
pub mod music;
pub mod options;
pub mod persist;
pub mod plan;
pub mod progress;
pub mod project;
pub mod removal;
pub mod queue;
pub mod semantics;
pub mod settings;
pub mod shuffle;
pub mod sorting;
pub mod sound;
pub mod strs;
pub mod text;
pub mod time;
pub mod timeline;
pub mod undo;
pub mod views;
pub mod wav;
pub mod words;
pub mod yuv;

use vstd::prelude::*;

verus! {

/// Version of the project file format written by this build.
pub const PROJECT_FORMAT_VERSION: u32 = 1;

} // verus!
