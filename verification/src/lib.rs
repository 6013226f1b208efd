//! The part of a terminal file manager that decides: which files of a
//! directory are shown and in what order, how a listing follows the changes
//! of the file system, what is tagged, how sizes and permissions read, and
//! where the columns of the screen stand.
//!
//! Nothing here touches the disk, the terminal or a thread. What has to be
//! read from them is handed in as plain values.

pub mod browse;
pub mod coordinates;
pub mod dirty;
pub mod display;
pub mod enqueue;
pub mod equality;
pub mod fail;
pub mod file;
pub mod files;
pub mod fscache;
pub mod jobs;
pub mod listing;
pub mod location;
pub mod media;
pub mod miller_columns;
pub mod order;
pub mod pathname;
pub mod refresh;
pub mod stale;
pub mod tags;
pub mod text;
pub mod ticks;
pub mod viewing;
pub mod widget;
