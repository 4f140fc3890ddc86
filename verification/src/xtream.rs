//! Addresses on an Xtream server: the player API, the XMLTV guide and the
//! stream URLs, and the keys under which playback progress is kept.

use vstd::prelude::*;

use crate::cache::CatalogueKind;
use crate::profiles::ProfileCredentials;
use crate::text::{dec, push_decimal, push_str};

verus! {

/// `{url}/player_api.php?username={username}&password={password}`.
pub open spec fn api_base(c: ProfileCredentials) -> Seq<char> {
    c.url@ + "/player_api.php?username="@ + c.username@ + "&password="@ + c.password@
}

/// The API action that lists the categories of `kind`.
pub open spec fn categories_action(kind: CatalogueKind) -> Seq<char> {
    match kind {
        CatalogueKind::Live => "get_live_categories"@,
        CatalogueKind::Vod => "get_vod_categories"@,
        CatalogueKind::Series => "get_series_categories"@,
    }
}

/// The API action that lists the items of `kind`.
pub open spec fn items_action(kind: CatalogueKind) -> Seq<char> {
    match kind {
        CatalogueKind::Live => "get_live_streams"@,
        CatalogueKind::Vod => "get_vod_streams"@,
        CatalogueKind::Series => "get_series"@,
    }
}

fn push_api_base(s: &mut String, c: &ProfileCredentials)
    ensures
        final(s)@ == old(s)@ + api_base(*c),
{
    push_str(s, c.url.as_str());
    push_str(s, "/player_api.php?username=");
    push_str(s, c.username.as_str());
    push_str(s, "&password=");
    push_str(s, c.password.as_str());
}

fn push_categories_action(s: &mut String, kind: CatalogueKind)
    ensures
        final(s)@ == old(s)@ + categories_action(kind),
{
    match kind {
        CatalogueKind::Live => push_str(s, "get_live_categories"),
        CatalogueKind::Vod => push_str(s, "get_vod_categories"),
        CatalogueKind::Series => push_str(s, "get_series_categories"),
    }
}

fn push_items_action(s: &mut String, kind: CatalogueKind)
    ensures
        final(s)@ == old(s)@ + items_action(kind),
{
    match kind {
        CatalogueKind::Live => push_str(s, "get_live_streams"),
        CatalogueKind::Vod => push_str(s, "get_vod_streams"),
        CatalogueKind::Series => push_str(s, "get_series"),
    }
}

/// The URL that lists the categories of `kind`.
pub fn categories_url(c: &ProfileCredentials, kind: CatalogueKind) -> (r: String)
    ensures
        r@ == api_base(*c) + "&action="@ + categories_action(kind),
{
    let mut s = String::new();
    push_api_base(&mut s, c);
    push_str(&mut s, "&action=");
    push_categories_action(&mut s, kind);
    s
}

/// The URL that lists every live channel of the server at once.
pub fn all_live_streams_url(c: &ProfileCredentials) -> (r: String)
    ensures
        r@ == api_base(*c) + "&action="@ + items_action(CatalogueKind::Live),
{
    let mut s = String::new();
    push_api_base(&mut s, c);
    push_str(&mut s, "&action=");
    push_items_action(&mut s, CatalogueKind::Live);
    s
}

/// The URL that lists the items of `kind` in one category.
pub fn category_items_url(c: &ProfileCredentials, kind: CatalogueKind, category_id: &str) -> (r:
    String)
    ensures
        r@ == api_base(*c) + "&action="@ + items_action(kind) + "&category_id="@ + category_id@,
{
    let mut s = String::new();
    push_api_base(&mut s, c);
    push_str(&mut s, "&action=");
    push_items_action(&mut s, kind);
    push_str(&mut s, "&category_id=");
    push_str(&mut s, category_id);
    s
}

/// The URL of the details of a film.
pub fn vod_info_url(c: &ProfileCredentials, vod_id: u64) -> (r: String)
    ensures
        r@ == api_base(*c) + "&action=get_vod_info&vod_id="@ + dec(vod_id as nat),
{
    let mut s = String::new();
    push_api_base(&mut s, c);
    push_str(&mut s, "&action=get_vod_info&vod_id=");
    push_decimal(&mut s, vod_id);
    s
}

/// The URL of the seasons and episodes of a series.
pub fn series_info_url(c: &ProfileCredentials, series_id: u64) -> (r: String)
    ensures
        r@ == api_base(*c) + "&action=get_series_info&series_id="@ + dec(series_id as nat),
{
    let mut s = String::new();
    push_api_base(&mut s, c);
    push_str(&mut s, "&action=get_series_info&series_id=");
    push_decimal(&mut s, series_id);
    s
}

/// The URL of the next programmes (at most ten) of a channel.
pub fn short_epg_url(c: &ProfileCredentials, stream_id: u64) -> (r: String)
    ensures
        r@ == api_base(*c) + "&action=get_short_epg&stream_id="@ + dec(stream_id as nat)
            + "&limit=10"@,
{
    let mut s = String::new();
    push_api_base(&mut s, c);
    push_str(&mut s, "&action=get_short_epg&stream_id=");
    push_decimal(&mut s, stream_id);
    push_str(&mut s, "&limit=10");
    s
}

/// The URL of the server's whole XMLTV guide.
pub fn xmltv_url(c: &ProfileCredentials) -> (r: String)
    ensures
        r@ == c.url@ + "/xmltv.php?username="@ + c.username@ + "&password="@ + c.password@,
{
    let mut s = String::new();
    push_str(&mut s, c.url.as_str());
    push_str(&mut s, "/xmltv.php?username=");
    push_str(&mut s, c.username.as_str());
    push_str(&mut s, "&password=");
    push_str(&mut s, c.password.as_str());
    s
}

/// `{url}/{username}/{password}/`.
pub open spec fn login_path(c: ProfileCredentials) -> Seq<char> {
    c.url@ + "/"@ + c.username@ + "/"@ + c.password@ + "/"@
}

fn push_login_path(s: &mut String, c: &ProfileCredentials)
    ensures
        final(s)@ == old(s)@ + login_path(*c),
{
    push_str(s, c.url.as_str());
    push_str(s, "/");
    push_str(s, c.username.as_str());
    push_str(s, "/");
    push_str(s, c.password.as_str());
    push_str(s, "/");
}

/// The stream URL of a live channel.
pub fn live_stream_url(c: &ProfileCredentials, stream_id: u64) -> (r: String)
    ensures
        r@ == login_path(*c) + dec(stream_id as nat) + ".ts"@,
{
    let mut s = String::new();
    push_login_path(&mut s, c);
    push_decimal(&mut s, stream_id);
    push_str(&mut s, ".ts");
    s
}

/// The container of a stream: the given extension, or `mkv` when none is
/// given.
pub open spec fn container(ext: Seq<char>) -> Seq<char> {
    if ext.len() == 0 {
        "mkv"@
    } else {
        ext
    }
}

fn push_container(s: &mut String, ext: &str)
    ensures
        final(s)@ == old(s)@ + container(ext@),
{
    if ext.is_empty() {
        push_str(s, "mkv");
    } else {
        push_str(s, ext);
    }
}

/// The stream URL of a film.
pub fn movie_url(c: &ProfileCredentials, stream_id: u64, ext: &str) -> (r: String)
    ensures
        r@ == c.url@ + "/movie/"@ + c.username@ + "/"@ + c.password@ + "/"@ + dec(
            stream_id as nat,
        ) + "."@ + container(ext@),
{
    let mut s = String::new();
    push_str(&mut s, c.url.as_str());
    push_str(&mut s, "/movie/");
    push_str(&mut s, c.username.as_str());
    push_str(&mut s, "/");
    push_str(&mut s, c.password.as_str());
    push_str(&mut s, "/");
    push_decimal(&mut s, stream_id);
    push_str(&mut s, ".");
    push_container(&mut s, ext);
    s
}

/// The stream URL of an episode.
pub fn episode_url(c: &ProfileCredentials, episode_id: &str, ext: &str) -> (r: String)
    ensures
        r@ == c.url@ + "/series/"@ + c.username@ + "/"@ + c.password@ + "/"@ + episode_id@ + "."@
            + container(ext@),
{
    let mut s = String::new();
    push_str(&mut s, c.url.as_str());
    push_str(&mut s, "/series/");
    push_str(&mut s, c.username.as_str());
    push_str(&mut s, "/");
    push_str(&mut s, c.password.as_str());
    push_str(&mut s, "/");
    push_str(&mut s, episode_id);
    push_str(&mut s, ".");
    push_container(&mut s, ext);
    s
}

/// The key under which the progress of a film is kept.
pub fn movie_key(stream_id: u64) -> (r: String)
    ensures
        r@ == "movie_"@ + dec(stream_id as nat),
{
    let mut s = String::new();
    push_str(&mut s, "movie_");
    push_decimal(&mut s, stream_id);
    s
}

/// The key under which the progress of an episode is kept.
pub fn episode_key(episode_id: &str) -> (r: String)
    ensures
        r@ == "episode_"@ + episode_id@,
{
    let mut s = String::new();
    push_str(&mut s, "episode_");
    push_str(&mut s, episode_id);
    s
}

} // verus!
