//! Profiles: their credentials, the list of profile names, and the base URL
//! of an Xtream server.

use vstd::prelude::*;

use crate::keyed::{
    entries_view, find_entry, remove_entry, set_entry, value_of, with_entry, without_entry, Entry,
};
use crate::text::{dec, push_decimal, push_str, str_eq};

verus! {

/// Login of an Xtream profile.
pub struct ProfileCredentials {
    pub url: String,
    pub username: String,
    pub password: String,
}

impl Clone for ProfileCredentials {
    fn clone(&self) -> (r: Self)
        ensures
            r == *self,
    {
        ProfileCredentials {
            url: self.url.clone(),
            username: self.username.clone(),
            password: self.password.clone(),
        }
    }
}

/// Sources of an M3U8 profile.
pub struct M3u8Credentials {
    pub m3u_url: String,
    pub epg_url: String,
}

impl Clone for M3u8Credentials {
    fn clone(&self) -> (r: Self)
        ensures
            r == *self,
    {
        M3u8Credentials { m3u_url: self.m3u_url.clone(), epg_url: self.epg_url.clone() }
    }
}

// ─── URL parsing ─────────────────────────────────────────────────────────────

/// The parts of a URL that the client keeps.
pub struct UrlParts {
    pub scheme: String,
    pub host: Option<String>,
    pub port: Option<u16>,
}

pub open spec fn opt_str_view(o: Option<String>) -> Option<Seq<char>> {
    match o {
        Some(s) => Some(s@),
        None => None,
    }
}

/// (scheme, host, port) of a parsed URL, or the parser's error message.
pub open spec fn parsed_view(r: Result<UrlParts, String>) -> Result<
    (Seq<char>, Option<Seq<char>>, Option<u16>),
    Seq<char>,
> {
    match r {
        Ok(p) => Ok((p.scheme@, opt_str_view(p.host), p.port)),
        Err(e) => Err(e@),
    }
}

/// What `url::Url::parse` makes of a string (WHATWG URL parsing): the
/// scheme, host and explicit non-default port, or the error's message.
pub uninterp spec fn url_parse(raw: Seq<char>) -> Result<
    (Seq<char>, Option<Seq<char>>, Option<u16>),
    Seq<char>,
>;

/// `url::Url::parse`, read back through `scheme`, `host_str` and `port`; an
/// error is turned into its message. The result is named by `url_parse`.
#[verifier::external_body]
fn parse_url(raw: &str) -> (r: Result<UrlParts, String>)
    ensures
        parsed_view(r) == url_parse(raw@),
{
    match url::Url::parse(raw) {
        Ok(u) => Ok(UrlParts { scheme: u.scheme().into(), host: u.host_str().map(String::from), port: u.port() }),
        Err(e) => Err(e.to_string()),
    }
}

/// `scheme://host`, with `:port` when the URL names a port.
pub open spec fn spec_origin(scheme: Seq<char>, host: Seq<char>, port: Option<u16>) -> Seq<char> {
    match port {
        Some(p) => scheme + "://"@ + host + ":"@ + dec(p as nat),
        None => scheme + "://"@ + host,
    }
}

/// The base URL of a parsed URL, or why there is none.
pub open spec fn spec_base_url(
    parsed: Result<(Seq<char>, Option<Seq<char>>, Option<u16>), Seq<char>>,
) -> Result<Seq<char>, Seq<char>> {
    match parsed {
        Err(e) => Err("Invalid URL: "@ + e),
        Ok((scheme, host, port)) => match host {
            None => Err("URL has no host"@),
            Some(h) => Ok(spec_origin(scheme, h, port)),
        },
    }
}

/// What the base URL keeps: for every scheme, a URL with host `h` gives the
/// scheme, `://` and the host, and a port that the parser reports is always
/// kept, as `:` and its decimal digits after that; a URL without a host, or
/// one that does not parse, gives no base URL.
pub proof fn lemma_base_url_keeps_port(scheme: Seq<char>, h: Seq<char>, p: u16, e: Seq<char>)
    ensures
        spec_base_url(Ok((scheme, Some(h), None))) == Ok::<Seq<char>, Seq<char>>(
            scheme + "://"@ + h,
        ),
        spec_base_url(Ok((scheme, Some(h), Some(p)))) == Ok::<Seq<char>, Seq<char>>(
            scheme + "://"@ + h + ":"@ + dec(p as nat),
        ),
        spec_base_url(Ok((scheme, None, Some(p)))) is Err,
        spec_base_url(Ok((scheme, None, None))) is Err,
        spec_base_url(Err(e)) is Err,
{
}

/// Whatever the parser reports, a base URL with a port is the base URL
/// without it followed by `:` and the port: the port is never dropped.
pub proof fn lemma_base_url_port_appended(scheme: Seq<char>, h: Seq<char>, p: u16)
    ensures
        spec_base_url(Ok((scheme, Some(h), None))) matches Ok(b) && spec_base_url(
            Ok((scheme, Some(h), Some(p))),
        ) == Ok::<Seq<char>, Seq<char>>(b + ":"@ + dec(p as nat)),
{
}

pub open spec fn result_view(r: Result<String, String>) -> Result<Seq<char>, Seq<char>> {
    match r {
        Ok(s) => Ok(s@),
        Err(e) => Err(e@),
    }
}

/// The base URL of an already parsed URL: scheme, host and port, without
/// path, query or fragment.
pub fn base_url_of(parsed: Result<UrlParts, String>) -> (r: Result<String, String>)
    ensures
        result_view(r) == spec_base_url(parsed_view(parsed)),
{
    match parsed {
        Err(e) => {
            let mut msg = String::new();
            push_str(&mut msg, "Invalid URL: ");
            push_str(&mut msg, e.as_str());
            proof {
                reveal_strlit("Invalid URL: ");
            }
            Err(msg)
        },
        Ok(p) => match p.host {
            None => {
                let msg = String::from_str("URL has no host");
                Err(msg)
            },
            Some(h) => {
                let mut out = String::new();
                push_str(&mut out, p.scheme.as_str());
                push_str(&mut out, "://");
                push_str(&mut out, h.as_str());
                match p.port {
                    Some(port) => {
                        push_str(&mut out, ":");
                        push_decimal(&mut out, port as u64);
                    },
                    None => {},
                }
                proof {
                    reveal_strlit("://");
                    reveal_strlit(":");
                }
                Ok(out)
            },
        },
    }
}

/// The base URL (`scheme://host[:port]`) of a server address typed by the
/// user; an address that does not parse, or has no host, is refused.
pub fn extract_base_url(raw: &str) -> (r: Result<String, String>)
    ensures
        result_view(r) == spec_base_url(url_parse(raw@)),
{
    let parsed = parse_url(raw);
    base_url_of(parsed)
}

// ─── Profile list ────────────────────────────────────────────────────────────

pub open spec fn names_view(names: Seq<String>) -> Seq<Seq<char>> {
    names.map_values(|n: String| n@)
}

/// `names` with `name` added at the end unless it is there already.
pub open spec fn with_name(names: Seq<Seq<char>>, name: Seq<char>) -> Seq<Seq<char>> {
    if names.contains(name) {
        names
    } else {
        names.push(name)
    }
}

/// `names` without any occurrence of `name`, the others in order.
pub open spec fn without_name(names: Seq<Seq<char>>, name: Seq<char>) -> Seq<Seq<char>>
    decreases names.len(),
{
    if names.len() == 0 {
        names
    } else {
        let r = without_name(names.drop_last(), name);
        if names.last() == name {
            r
        } else {
            r.push(names.last())
        }
    }
}

/// Unlisting `name` removes every occurrence of it and keeps every other
/// name.
pub proof fn lemma_without_name_members(names: Seq<Seq<char>>, name: Seq<char>, other: Seq<char>)
    ensures
        !without_name(names, name).contains(name),
        other != name ==> (without_name(names, name).contains(other) <==> names.contains(other)),
    decreases names.len(),
{
    if names.len() > 0 {
        let d = names.drop_last();
        lemma_without_name_members(d, name, other);
        let r = without_name(d, name);
        if names.last() != name {
            assert(r.push(names.last()).contains(names.last())) by {
                assert(r.push(names.last())[r.len() as int] == names.last());
            }
            if r.push(names.last()).contains(name) {
                let j = choose|j: int| 0 <= j < r.len() + 1 && r.push(names.last())[j] == name;
                assert(r[j] == name);
            }
        }
        if other != name {
            if names.contains(other) {
                let j = choose|j: int| 0 <= j < names.len() && names[j] == other;
                if j < d.len() {
                    assert(d[j] == other);
                    if names.last() != name {
                        let k = choose|k: int| 0 <= k < r.len() && r[k] == other;
                        assert(r.push(names.last())[k] == other);
                    }
                } else {
                    assert(names.last() == other);
                    assert(r.push(names.last())[r.len() as int] == other);
                }
            }
            if without_name(names, name).contains(other) {
                if names.last() != name && other == names.last() {
                    assert(names[names.len() - 1] == other);
                } else {
                    let w = without_name(names, name);
                    let j = choose|j: int| 0 <= j < w.len() && w[j] == other;
                    if names.last() != name {
                        if j < r.len() {
                            assert(r[j] == other);
                        }
                    }
                    assert(r.contains(other));
                    let k = choose|k: int| 0 <= k < d.len() && d[k] == other;
                    assert(names[k] == other);
                }
            }
        }
    }
}

/// Listing a name makes it listed, listing it again changes nothing, other
/// names stay as they were; unlisting it leaves none of it and keeps the
/// others.
pub proof fn lemma_profile_list(names: Seq<Seq<char>>, name: Seq<char>, other: Seq<char>)
    ensures
        with_name(names, name).contains(name),
        with_name(with_name(names, name), name) == with_name(names, name),
        other != name ==> (with_name(names, name).contains(other) <==> names.contains(other)),
        !without_name(names, name).contains(name),
        other != name ==> (without_name(names, name).contains(other) <==> names.contains(other)),
{
    if !names.contains(name) {
        assert(names.push(name)[names.len() as int] == name);
        if other != name && names.push(name).contains(other) {
            let j = choose|j: int| 0 <= j < names.len() + 1 && names.push(name)[j] == other;
            assert(names[j] == other);
        }
        if names.contains(other) {
            let j = choose|j: int| 0 <= j < names.len() && names[j] == other;
            assert(names.push(name)[j] == other);
        }
    }
    lemma_without_name_members(names, name, other);
}

/// Whether `name` is in the list.
pub fn list_contains(names: &Vec<String>, name: &str) -> (r: bool)
    ensures
        r == names_view(names@).contains(name@),
{
    let mut i: usize = 0;
    while i < names.len()
        invariant
            i <= names.len(),
            forall|k: int| 0 <= k < i ==> names@[k]@ != name@,
        decreases names.len() - i,
    {
        if str_eq(names[i].as_str(), name) {
            assert(names_view(names@)[i as int] == name@);
            return true;
        }
        i = i + 1;
    }
    assert forall|k: int| 0 <= k < names_view(names@).len() implies names_view(names@)[k]
        != name@ by {
        assert(names_view(names@)[k] == names@[k]@);
    }
    false
}

/// Adds `name` at the end of the list unless it is there; says whether the
/// list changed (and so has to be saved).
pub fn add_profile_name(names: &mut Vec<String>, name: &str) -> (changed: bool)
    ensures
        names_view(final(names)@) == with_name(names_view(old(names)@), name@),
        changed == !names_view(old(names)@).contains(name@),
{
    if list_contains(names, name) {
        false
    } else {
        let ghost before = names_view(names@);
        names.push(String::from_str(name));
        assert(names_view(names@) =~= before.push(name@));
        true
    }
}

/// Removes every occurrence of `name` from the list.
pub fn remove_profile_name(names: &mut Vec<String>, name: &str)
    ensures
        names_view(final(names)@) == without_name(names_view(old(names)@), name@),
{
    let ghost orig = names_view(names@);
    assert(orig.take(0) =~= Seq::<Seq<char>>::empty());
    let mut kept: Vec<String> = Vec::new();
    let mut i: usize = 0;
    while i < names.len()
        invariant
            i <= names.len(),
            orig == names_view(names@),
            names_view(kept@) == without_name(orig.take(i as int), name@),
        decreases names.len() - i,
    {
        let ghost before = names_view(kept@);
        assert(orig.take(i + 1).drop_last() =~= orig.take(i as int));
        assert(orig[i as int] == names@[i as int]@);
        if !str_eq(names[i].as_str(), name) {
            kept.push(names[i].clone());
            assert(names_view(kept@) =~= before.push(orig[i as int]));
        }
        assert(orig.take(i + 1) =~= orig.take(i as int).push(orig[i as int]));
        i = i + 1;
    }
    assert(orig.take(names.len() as int) =~= orig);
    *names = kept;
}

// ─── Credential tables ───────────────────────────────────────────────────────

/// Saves an Xtream profile: the server address is cut to its base URL, the
/// credentials are stored under `name` and the name is listed. Answers
/// whether the name list changed; an address without a base URL is refused
/// with the reason, and nothing changes.
pub fn register_xtream_profile(
    creds: &mut Vec<Entry<ProfileCredentials>>,
    names: &mut Vec<String>,
    name: &str,
    url: &str,
    username: String,
    password: String,
) -> (r: Result<bool, String>)
    ensures
        match (r, spec_base_url(url_parse(url@))) {
            (Err(e), Err(m)) => e@ == m && *final(creds) == *old(creds) && *final(names)
                == *old(names),
            (Ok(changed), Ok(base)) => {
                &&& exists|c: ProfileCredentials|
                    c.url@ == base && c.username == username && c.password == password
                        && entries_view(final(creds)@) == with_entry(
                        entries_view(old(creds)@),
                        name@,
                        c,
                    )
                &&& names_view(final(names)@) == with_name(names_view(old(names)@), name@)
                &&& changed == !names_view(old(names)@).contains(name@)
            },
            _ => false,
        },
{
    match extract_base_url(url) {
        Err(e) => Err(e),
        Ok(base) => {
            let c = ProfileCredentials { url: base, username, password };
            let ghost cv = c;
            set_entry(creds, String::from_str(name), c);
            let changed = add_profile_name(names, name);
            assert(cv.url@ == base@);
            Ok(changed)
        },
    }
}

/// Saves an M3U8 profile: its sources are stored under `name` and the name
/// is listed. Answers whether the name list changed.
pub fn register_m3u8_profile(
    creds: &mut Vec<Entry<M3u8Credentials>>,
    names: &mut Vec<String>,
    name: &str,
    m3u_url: String,
    epg_url: String,
) -> (changed: bool)
    ensures
        entries_view(final(creds)@) == with_entry(
            entries_view(old(creds)@),
            name@,
            M3u8Credentials { m3u_url, epg_url },
        ),
        names_view(final(names)@) == with_name(names_view(old(names)@), name@),
        changed == !names_view(old(names)@).contains(name@),
{
    set_entry(creds, String::from_str(name), M3u8Credentials { m3u_url, epg_url });
    add_profile_name(names, name)
}

/// Deletes a profile everywhere: its Xtream and M3U8 credentials, its place
/// in the name list and its icon.
pub fn forget_profile(
    creds: &mut Vec<Entry<ProfileCredentials>>,
    m3u8_creds: &mut Vec<Entry<M3u8Credentials>>,
    names: &mut Vec<String>,
    icons: &mut Vec<Entry<String>>,
    name: &str,
)
    ensures
        entries_view(final(creds)@) == without_entry(entries_view(old(creds)@), name@),
        entries_view(final(m3u8_creds)@) == without_entry(entries_view(old(m3u8_creds)@), name@),
        names_view(final(names)@) == without_name(names_view(old(names)@), name@),
        entries_view(final(icons)@) == without_entry(entries_view(old(icons)@), name@),
{
    remove_entry(creds, name);
    remove_entry(m3u8_creds, name);
    remove_profile_name(names, name);
    remove_entry(icons, name);
}

/// `prefix` + `'name'` + `suffix`.
pub open spec fn quoted_message(prefix: Seq<char>, name: Seq<char>, suffix: Seq<char>) -> Seq<char> {
    prefix + "'"@ + name + "'"@ + suffix
}

fn quoted(prefix: &str, name: &str, suffix: &str) -> (r: String)
    ensures
        r@ == quoted_message(prefix@, name@, suffix@),
{
    let mut m = String::new();
    push_str(&mut m, prefix);
    push_str(&mut m, "'");
    push_str(&mut m, name);
    push_str(&mut m, "'");
    push_str(&mut m, suffix);
    m
}

/// The Xtream credentials stored under `name`, or the message that there
/// are none.
pub fn lookup_credentials(creds: &Vec<Entry<ProfileCredentials>>, name: &str) -> (r: Result<
    ProfileCredentials,
    String,
>)
    ensures
        match value_of(entries_view(creds@), name@) {
            Some(c) => r == Ok::<ProfileCredentials, String>(c),
            None => r matches Err(e) && e@ == quoted_message("Profile "@, name@, " not found"@),
        },
{
    match find_entry(creds, name) {
        Some(i) => {
            proof {
                crate::keyed::lemma_position_of(entries_view(creds@), name@, 0);
            }
            Ok(creds[i].value.clone())
        },
        None => Err(quoted("Profile ", name, " not found")),
    }
}

/// The M3U8 sources stored under `name`, or the message that there are none.
pub fn lookup_m3u8_credentials(creds: &Vec<Entry<M3u8Credentials>>, name: &str) -> (r: Result<
    M3u8Credentials,
    String,
>)
    ensures
        match value_of(entries_view(creds@), name@) {
            Some(c) => r == Ok::<M3u8Credentials, String>(c),
            None => r matches Err(e) && e@ == quoted_message("M3U8 profile "@, name@, " not found"@),
        },
{
    match find_entry(creds, name) {
        Some(i) => {
            proof {
                crate::keyed::lemma_position_of(entries_view(creds@), name@, 0);
            }
            Ok(creds[i].value.clone())
        },
        None => Err(quoted("M3U8 profile ", name, " not found")),
    }
}

/// Whether `name` is an M3U8 profile.
pub fn is_m3u8_profile(creds: &Vec<Entry<M3u8Credentials>>, name: &str) -> (r: bool)
    ensures
        r == value_of(entries_view(creds@), name@) is Some,
{
    find_entry(creds, name).is_some()
}

} // verus!
