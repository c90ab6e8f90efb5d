//! Launch scripts for i3 window-manager sessions, generated from a small config format.
//!
//! A config names the apps to launch and where their windows go, the processes to stop first, the
//! text to type into apps, and the timers to run. [`parse`] reads one, [`format`] writes one,
//! [`script`] turns one into a shell script, and [`wizard`] with [`answers`] makes one in a
//! dialogue.

// Text and numbers.
pub mod text;
pub mod facts;
pub mod number;
pub mod fold;

// Configs and their text.
pub mod config;
pub mod error;
pub mod values;
pub mod validate;
pub mod parse;
pub mod format;
pub mod sample;
pub mod words;
pub mod read_back;
pub mod parsed;
pub mod comments;
pub mod settings;
pub mod block_laws;
pub mod text_laws;
pub mod file_laws;

// Scripts.
pub mod shell;
pub mod preamble;
pub mod script;
pub mod script_laws;
pub mod script_lines;
pub mod preview;

// Dialogues.
pub mod prompt;
pub mod question_laws;
pub mod keys;
pub mod key_laws;
pub mod devtools;
pub mod page_laws;
pub mod wizard;
pub mod answers;
pub mod dialogue;
pub mod kept;
pub mod wizard_laws;
