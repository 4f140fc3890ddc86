//! Playing media in mpv: the progress script handed to the player, the
//! player's command line, and the checks on the languages it ended with.

use vstd::prelude::*;

use crate::text::{push_str, str_eq};

verus! {

/// The progress script up to the path of the file it writes.
pub const SCRIPT_HEAD: &'static str = r#"local last_pos = 0
local last_dur = 0
local last_vol = 100
local last_sub_lang = "off"
local last_audio_lang = ""

mp.observe_property("time-pos", "number", function(_, val)
    if val and val > 0 then last_pos = val end
end)
mp.observe_property("duration", "number", function(_, val)
    if val and val > 0 then last_dur = val end
end)
mp.observe_property("volume", "number", function(_, val)
    if val then last_vol = val end
end)

local function find_lang(track_type, id_str)
    if not id_str or id_str == "no" then return nil end
    local tracks = mp.get_property_native("track-list") or {}
    for _, t in ipairs(tracks) do
        if t.type == track_type and tostring(t.id) == id_str then
            return t.lang
        end
    end
    return nil
end

mp.observe_property("sid", "string", function(_, val)
    if not val or val == "no" then
        last_sub_lang = "off"
    else
        last_sub_lang = find_lang("sub", val) or "off"
    end
end)

mp.observe_property("aid", "string", function(_, val)
    if not val or val == "no" then
        last_audio_lang = ""
    else
        last_audio_lang = find_lang("audio", val) or ""
    end
end)

mp.register_event("shutdown", function()
    local f = io.open(""#;

/// The progress script after the path of the file it writes.
pub const SCRIPT_TAIL: &'static str = r#"", "w")
    if f then
        f:write(string.format(
            '{"position":%f,"duration":%f,"volume":%f,"sub_lang":"%s","audio_lang":"%s"}',
            last_pos, last_dur, last_vol, last_sub_lang, last_audio_lang))
        f:close()
    end
end)"#;

/// `s` with every backslash turned into a forward slash.
pub open spec fn forward_slashes(s: Seq<char>) -> Seq<char> {
    s.map_values(|c: char| if c == '\\' { '/' } else { c })
}

/// The script that records, when mpv shuts down, the position, duration,
/// volume and languages into the file at `pos_path`.
pub open spec fn spec_progress_script(pos_path: Seq<char>) -> Seq<char> {
    SCRIPT_HEAD@ + forward_slashes(pos_path) + SCRIPT_TAIL@
}

/// `path` with forward slashes only, as Lua string literals need on every
/// platform.
pub fn lua_path(path: &str) -> (r: String)
    ensures
        r@ == forward_slashes(path@),
{
    let v = crate::text::chars_of(path);
    let mut out = String::new();
    let mut i: usize = 0;
    while i < v.len()
        invariant
            i <= v.len(),
            out@ == forward_slashes(v@.take(i as int)),
        decreases v.len() - i,
    {
        let c = v[i];
        if c == '\\' {
            out.push('/');
        } else {
            out.push(c);
        }
        assert(forward_slashes(v@.take(i + 1)) =~= forward_slashes(v@.take(i as int)).push(
            if c == '\\' { '/' } else { c },
        ));
        i = i + 1;
    }
    assert(v@.take(v.len() as int) =~= v@);
    out
}

/// The progress script for a position file at `pos_path`.
pub fn progress_script(pos_path: &str) -> (r: String)
    ensures
        r@ == spec_progress_script(pos_path@),
{
    let mut s = String::new();
    push_str(&mut s, SCRIPT_HEAD);
    let p = lua_path(pos_path);
    push_str(&mut s, p.as_str());
    push_str(&mut s, SCRIPT_TAIL);
    s
}

/// `flag` followed by `value`, as one argument.
fn flag_arg(flag: &str, value: &str) -> (r: String)
    ensures
        r@ == flag@ + value@,
{
    let mut s = String::from_str(flag);
    push_str(&mut s, value);
    s
}

pub open spec fn opt_view(o: Option<String>) -> Option<Seq<char>> {
    match o {
        Some(s) => Some(s@),
        None => None,
    }
}

/// The arguments that set the subtitle and audio languages: subtitles off,
/// or a preferred subtitle language; a preferred audio language unless it
/// is empty.
pub open spec fn spec_language_args(subtitle: Option<Seq<char>>, audio: Option<Seq<char>>) -> Seq<
    Seq<char>,
> {
    let sub: Seq<Seq<char>> = match subtitle {
        Some(l) => if l == "off"@ {
            seq!["--sid=no"@]
        } else {
            seq!["--slang="@ + l]
        },
        None => seq![],
    };
    let aud: Seq<Seq<char>> = match audio {
        Some(l) => if l.len() > 0 {
            seq!["--alang="@ + l]
        } else {
            seq![]
        },
        None => seq![],
    };
    sub + aud
}

/// The command line of mpv for a film or episode: the URL, the progress
/// script, full screen; then the start position and volume when given (as
/// already formatted numbers), the languages, and the configuration
/// directory when there is one.
pub open spec fn spec_mpv_args(
    url: Seq<char>,
    script_path: Seq<char>,
    start: Option<Seq<char>>,
    volume: Option<Seq<char>>,
    subtitle: Option<Seq<char>>,
    audio: Option<Seq<char>>,
    config_dir: Option<Seq<char>>,
) -> Seq<Seq<char>> {
    let base = seq![url, "--script="@ + script_path, "--fs"@];
    let st: Seq<Seq<char>> = match start {
        Some(t) => seq!["--start="@ + t],
        None => seq![],
    };
    let vol: Seq<Seq<char>> = match volume {
        Some(t) => seq!["--volume="@ + t],
        None => seq![],
    };
    let cfg: Seq<Seq<char>> = match config_dir {
        Some(d) => seq!["--config-dir="@ + d],
        None => seq![],
    };
    base + st + vol + spec_language_args(subtitle, audio) + cfg
}

pub open spec fn args_view(v: Seq<String>) -> Seq<Seq<char>> {
    v.map_values(|s: String| s@)
}

fn push_arg(args: &mut Vec<String>, a: String)
    ensures
        args_view(final(args)@) == args_view(old(args)@).push(a@),
{
    let ghost before = args_view(args@);
    args.push(a);
    assert(args_view(args@) =~= before.push(a@));
}

/// Appends the language arguments.
fn push_language_args(args: &mut Vec<String>, subtitle: &Option<String>, audio: &Option<String>)
    ensures
        args_view(final(args)@) == args_view(old(args)@) + spec_language_args(
            opt_view(*subtitle),
            opt_view(*audio),
        ),
{
    let ghost start = args_view(args@);
    proof {
        reveal_strlit("off");
        reveal_strlit("--sid=no");
    }
    match subtitle {
        Some(l) => {
            if str_eq(l.as_str(), "off") {
                push_arg(args, String::from_str("--sid=no"));
            } else {
                push_arg(args, flag_arg("--slang=", l.as_str()));
            }
        },
        None => {},
    }
    let ghost mid = args_view(args@);
    match audio {
        Some(l) => {
            if l.as_str().is_empty() {
            } else {
                push_arg(args, flag_arg("--alang=", l.as_str()));
            }
        },
        None => {},
    }
    assert(args_view(args@) =~= start + spec_language_args(opt_view(*subtitle), opt_view(*audio)));
}

/// The command line of mpv for a film or episode.
pub fn mpv_args(
    url: String,
    script_path: &str,
    start: Option<String>,
    volume: Option<String>,
    subtitle: Option<String>,
    audio: Option<String>,
    config_dir: Option<String>,
) -> (r: Vec<String>)
    ensures
        args_view(r@) == spec_mpv_args(
            url@,
            script_path@,
            opt_view(start),
            opt_view(volume),
            opt_view(subtitle),
            opt_view(audio),
            opt_view(config_dir),
        ),
{
    let mut args: Vec<String> = Vec::new();
    let ghost u = url@;
    push_arg(&mut args, url);
    push_arg(&mut args, flag_arg("--script=", script_path));
    push_arg(&mut args, String::from_str("--fs"));
    match &start {
        Some(t) => push_arg(&mut args, flag_arg("--start=", t.as_str())),
        None => {},
    }
    match &volume {
        Some(t) => push_arg(&mut args, flag_arg("--volume=", t.as_str())),
        None => {},
    }
    push_language_args(&mut args, &subtitle, &audio);
    match &config_dir {
        Some(d) => push_arg(&mut args, flag_arg("--config-dir=", d.as_str())),
        None => {},
    }
    assert(args_view(args@) =~= spec_mpv_args(
        u,
        script_path@,
        opt_view(start),
        opt_view(volume),
        opt_view(subtitle),
        opt_view(audio),
        opt_view(config_dir),
    ));
    args
}

/// The audio argument is independent of the subtitle preference: whatever
/// the subtitle setting, a non-empty audio language adds exactly one
/// argument, `--alang=` and the language, after the subtitle arguments, and
/// an empty or absent one adds none. The subtitle arguments are nothing
/// without a preference, `--sid=no` for `off`, else `--slang=` and the
/// language.
pub proof fn lemma_language_args(subtitle: Option<Seq<char>>, a: Seq<char>)
    ensures
        a.len() > 0 ==> spec_language_args(subtitle, Some(a)) == spec_language_args(
            subtitle,
            None,
        ).push("--alang="@ + a),
        a.len() == 0 ==> spec_language_args(subtitle, Some(a)) == spec_language_args(subtitle, None),
        spec_language_args(None, None).len() == 0,
        spec_language_args(Some("off"@), None) == seq!["--sid=no"@],
        forall|l: Seq<char>|
            l != "off"@ ==> #[trigger] spec_language_args(Some(l), None) == seq!["--slang="@ + l],
{
    assert(spec_language_args(subtitle, Some(a)) =~= spec_language_args(subtitle, None) + (if a.len() > 0 {
        seq!["--alang="@ + a]
    } else {
        Seq::<Seq<char>>::empty()
    }));
    assert(spec_language_args(None, None) =~= Seq::<Seq<char>>::empty());
    assert(spec_language_args(Some("off"@), None) =~= seq!["--sid=no"@]);
    assert forall|l: Seq<char>| l != "off"@ implies #[trigger] spec_language_args(Some(l), None)
        == seq!["--slang="@ + l] by {
        assert(spec_language_args(Some(l), None) =~= seq!["--slang="@ + l]);
    }
}

/// A film's command line ends its language arguments with the audio
/// language whenever one is set and not empty, whatever the subtitle
/// setting: the arguments with it are those without it and
/// `--alang=` and the language, placed before the configuration directory.
pub proof fn lemma_mpv_args_audio(
    url: Seq<char>,
    script_path: Seq<char>,
    start: Option<Seq<char>>,
    volume: Option<Seq<char>>,
    subtitle: Option<Seq<char>>,
    a: Seq<char>,
)
    requires
        a.len() > 0,
    ensures
        spec_mpv_args(url, script_path, start, volume, subtitle, Some(a), None) == spec_mpv_args(
            url,
            script_path,
            start,
            volume,
            subtitle,
            None,
            None,
        ).push("--alang="@ + a),
        spec_mpv_args(url, script_path, start, volume, subtitle, Some(a), None).contains(
            "--alang="@ + a,
        ),
{
    lemma_language_args(subtitle, a);
    let with = spec_mpv_args(url, script_path, start, volume, subtitle, Some(a), None);
    let without = spec_mpv_args(url, script_path, start, volume, subtitle, None, None);
    assert(with =~= without.push("--alang="@ + a));
    assert(with[with.len() - 1] == "--alang="@ + a);
}

/// The command line of mpv for a live channel: the URL, full screen, and
/// the configuration directory when there is one.
pub open spec fn spec_live_mpv_args(url: Seq<char>, config_dir: Option<Seq<char>>) -> Seq<Seq<char>> {
    match config_dir {
        Some(d) => seq![url, "--fs"@, "--config-dir="@ + d],
        None => seq![url, "--fs"@],
    }
}

/// The command line of mpv for a live channel.
pub fn live_mpv_args(url: String, config_dir: Option<String>) -> (r: Vec<String>)
    ensures
        args_view(r@) == spec_live_mpv_args(url@, opt_view(config_dir)),
{
    let mut args: Vec<String> = Vec::new();
    let ghost u = url@;
    push_arg(&mut args, url);
    push_arg(&mut args, String::from_str("--fs"));
    match &config_dir {
        Some(d) => push_arg(&mut args, flag_arg("--config-dir=", d.as_str())),
        None => {},
    }
    assert(args_view(args@) =~= spec_live_mpv_args(u, opt_view(config_dir)));
    args
}

/// A subtitle language was asked for (not empty, not `off`) and playback
/// ended with subtitles off (or none reported).
pub open spec fn spec_subtitle_missed(pref: Option<Seq<char>>, actual: Option<Seq<char>>) -> bool {
    let p = match pref {
        Some(l) => l,
        None => ""@,
    };
    let a = match actual {
        Some(l) => l,
        None => "off"@,
    };
    p.len() > 0 && p != "off"@ && a == "off"@
}

/// An audio language was asked for and playback ended on another, known one.
pub open spec fn spec_audio_missed(pref: Option<Seq<char>>, actual: Option<Seq<char>>) -> bool {
    match (pref, actual) {
        (Some(p), Some(a)) => p.len() > 0 && a.len() > 0 && a != p,
        _ => false,
    }
}

/// Whether the preferred subtitle language could not be honoured.
pub fn subtitle_preference_missed(pref: &Option<String>, actual: &Option<String>) -> (r: bool)
    ensures
        r == spec_subtitle_missed(opt_view(*pref), opt_view(*actual)),
{
    proof {
        reveal_strlit("off");
        reveal_strlit("");
    }
    let p: &str = match pref {
        Some(l) => l.as_str(),
        None => "",
    };
    let a: &str = match actual {
        Some(l) => l.as_str(),
        None => "off",
    };
    !p.is_empty() && !str_eq(p, "off") && str_eq(a, "off")
}

/// Whether the preferred audio language could not be honoured.
pub fn audio_preference_missed(pref: &Option<String>, actual: &Option<String>) -> (r: bool)
    ensures
        r == spec_audio_missed(opt_view(*pref), opt_view(*actual)),
{
    match (pref, actual) {
        (Some(p), Some(a)) => !p.as_str().is_empty() && !a.as_str().is_empty() && !str_eq(
            a.as_str(),
            p.as_str(),
        ),
        _ => false,
    }
}

} // verus!
