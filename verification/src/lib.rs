//! A bidirectional prefetching navigator for captioned image datasets.
//!
//! A dataset directory pairs each image file with a sidecar text file that
//! holds its caption.  The navigator owns the ordered list of item names, the
//! current position, and a single-slot prefetch cache for the neighbour in the
//! last direction of travel; it loads image/caption pairs from an item store,
//! silently repairs the list when an entry turns out to be unloadable, and
//! persists caption edits.  The worker state machine, the request/response
//! protocol, the prefetch policy and the list-repair algorithm are all
//! verified; the surrounding process (threads, channels, the real filesystem
//! and the widgets) stays outside the library and drives it.

pub mod file_list;
pub mod item;
pub mod laws;
pub mod protocol;
pub mod store;
pub mod worker;
