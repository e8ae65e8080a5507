//! Discovery of installed applications and live tracking of installs and
//! removals, as verified logic over plain values.
//!
//! The crate holds the catalog rules of three desktop platforms: how
//! descriptors are accepted, how names, icons and executables are chosen,
//! and how raw change notifications turn into `Change` events.  Everything
//! that touches the operating system is handed in as data: a `Disk` is the
//! snapshot of the file system that the rules run on, and the watchers take
//! the handles and the raw events that the caller got from the system.
//!
//! * `common`: the application record.
//! * `disk`, `paths`, `text`: the snapshot, paths as texts, and searches in
//!   texts.
//! * `property_list`: property lists as trees.
//! * `platforms`: the enumeration rules of each platform.
//! * `utils`: application bundles.
//! * `watcher`: the watcher of each platform.

pub mod common;
pub mod disk;
pub mod paths;
pub mod platforms;
pub mod property_list;
pub mod text;
pub mod utils;
pub mod watcher;

pub use common::App;
