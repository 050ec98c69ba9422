//! Hardwave DAW project model and decision logic, with contracts proved by Verus.

pub mod arrangement;
pub mod automation;
pub mod browser;
pub mod bug_report;
pub mod capture;
pub mod channel_rack;
pub mod clip;
pub mod encode;
pub mod export;
pub mod fl_import;
pub mod housekeeping;
pub mod installer;
pub mod freeze;
pub mod marketplace;
pub mod midi_map;
pub mod multiplayer;
pub mod notes;
pub mod plugin_probe;
pub mod presets;
pub mod project;
pub mod recording;
pub mod scripting;
pub mod sends;
pub mod seqs;
pub mod settings;
pub mod sidechain;
pub mod sources;
pub mod tempo;
pub mod text;
pub mod timecode;
pub mod track;
pub mod tracks;
pub mod updater;
pub mod wire;
