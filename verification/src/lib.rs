//! The decisions of a process manager for ActivityWatch.
//!
//! A module is a program that runs in the background and sends events to the
//! ActivityWatch server. The manager finds modules, starts and stops them,
//! keeps track of their state, and restarts them when they crash.
//!
//! This crate decides; it does not act. The program around it talks to the
//! operating system and to the desktop: it hands in what happened and carries
//! out what is decided here.
//!
//! - [`state`] and [`supervise`]: the state of the manager, the messages of
//!   its modules, and crashes; [`laws`] says what holds of them as a whole.
//! - [`launch`] and [`worker`]: how a module's process is started, and what
//!   its handler does until it ends.
//! - [`process`] and [`sweep`]: module processes left over from an earlier
//!   run, and how they are ended.
//! - [`paths`] and [`discovery`]: where modules are looked for and what is
//!   taken for one; [`search`] says what holds of a whole search.
//! - [`menu`], [`notify`] and [`dialog`]: what the user sees.
//! - [`text`] and [`names`]: text, and maps in the order of names.
//! - [`outside`]: the functions of other crates that the manager calls.
pub mod dialog;
pub mod discovery;
pub mod launch;
pub mod laws;
pub mod menu;
pub mod names;
pub mod notify;
pub mod outside;
pub mod paths;
pub mod process;
pub mod search;
pub mod state;
pub mod supervise;
pub mod sweep;
pub mod text;
pub mod worker;
