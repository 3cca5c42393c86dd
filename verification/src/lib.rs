//! Provider-neutral music library logic for Subsonic-compatible servers:
//! media identities, the Subsonic request and response rules, the unified
//! library service and the playback queue.

pub mod text;
pub mod model;
pub mod paging;
pub mod ordering;
pub mod ranking;
pub mod subsonic;
pub mod response;
pub mod library;
pub mod playback;
pub mod browse;
pub mod catalog;
