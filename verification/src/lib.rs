//! Verified core of an IPTV desktop client: playlist and programme-guide
//! parsing, cache freshness rules, search, and the small text formats the
//! client reads and writes.

pub mod text;
pub mod logs;
pub mod cache;
pub mod m3u8;
pub mod group;
pub mod live;
pub mod xml;
pub mod epg;
pub mod vods;
pub mod series;
pub mod keyed;
pub mod search;
pub mod profiles;
pub mod playback;
pub mod xtream;
pub mod watched;
pub mod settings;
pub mod catalogue;
pub mod calendar;
