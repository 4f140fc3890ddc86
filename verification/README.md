# tunedesk

The verified core of Tunedesk, a desktop IPTV client for Xtream servers and
M3U8 playlists. The library (`src/`) holds the client's logic with Verus
contracts; the desktop shell (`app/`) holds the Tauri commands, HTTP, files,
the mpv process and the JSON formats on disk, and calls the library for every
decision but one: whether playback counts as finished, which compares
floating-point positions.

Library modules:

- `text`: trimming, substring search, decimal formatting and integer parsing.
- `keyed`, `group`: string-keyed tables and grouping by key.
- `cache`: freshness rules, the per-profile cache and its read-after-write laws.
- `catalogue`: how a request is answered, from the cache or by a fetch.
- `xtream`: the server's API, guide and stream URLs.
- `live`, `vods`, `series`: catalogue records; reading a provider's channel list.
- `m3u8`: playlist parsing, `#EXTINF` attributes, base64, XMLTV timestamps.
- `xml`, `epg`: the XML events of a programme guide and the guide built from them.
- `calendar`: the guide's date arithmetic agrees with the log's calendar.
- `logs`: log levels, timestamps and log lines.
- `profiles`: credentials, the profile list, and the base URL of a server.
- `search`: search over the cached catalogues of every profile.
- `watched`: finished items and resume positions.
- `playback`: mpv's command line and progress script.
- `settings`: the user's preferences.

`tests/` runs the library on concrete values.
