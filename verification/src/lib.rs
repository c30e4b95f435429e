//! Verified core of a start.gg tournament operator tool: reading start.gg
//! responses into tabs of sets, the requests the tool makes and the order it
//! makes them in, and the scoreboard it writes for a stream layout.
pub mod text;
pub mod json;
pub mod model;
pub mod fields;
pub mod games;
pub mod sets;
pub mod slug;
pub mod buckets;
pub mod tournament;
pub mod paging;
pub mod fetching;
pub mod startgg;
pub mod queries;
pub mod avatars;
pub mod overlay;
pub mod plugins;
pub mod report;
pub mod load;
