//! Decoder for chunk-compressed save files: the outer LZ4 chunk container,
//! the inner header and footer located from the end of the payload, the
//! string pool, the main variable index and the tag-dispatched variable
//! records. Beside it, the text side of progress tracking: normalising
//! recognised screen text, spotting announcements and matching them against
//! known names, and counting completed quests in an exported report.
pub mod error;
pub mod cursor;
pub mod container;
pub mod tags;
pub mod locator;
pub mod index;
pub mod pool;
pub mod text;
pub mod value;
pub mod record;
pub mod save;
pub mod laws;
pub mod action;
pub mod tracker;
