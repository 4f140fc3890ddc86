//! Live channels: the channel records, how a provider's raw channel list is
//! read, and how it is filed into the cache by category.

use vstd::prelude::*;

use crate::cache::{same_categories, same_guides, same_playlist, spec_stream_key, CatalogueKind, ProfileCache};
use crate::group::{group_set, grouped, groups_view, push_grouped, Group};
use crate::keyed::{entries_view, with_entry};
use crate::text::{chars_of, dec, decimal_string, parse_u64, parse_u64_range, trim, trim_range};

verus! {

/// A live channel.
#[derive(Debug, PartialEq, Eq)]
pub struct LiveStream {
    pub num: u32,
    pub name: String,
    pub stream_id: u64,
    pub stream_icon: String,
    pub epg_channel_id: String,
}

impl LiveStream {
    /// A field-by-field copy.
    pub fn copy(&self) -> (r: LiveStream)
        ensures
            r == *self,
    {
        LiveStream {
            num: self.num,
            name: self.name.clone(),
            stream_id: self.stream_id,
            stream_icon: self.stream_icon.clone(),
            epg_channel_id: self.epg_channel_id.clone(),
        }
    }
}

impl Clone for LiveStream {
    fn clone(&self) -> (r: LiveStream)
        ensures
            r == *self,
    {
        self.copy()
    }
}

/// A field of a provider's JSON record, as far as the client reads it.
pub enum JsonField {
    /// The record has no such key.
    Missing,
    /// A number that fits `u64`.
    Unsigned(u64),
    /// Any other number: negative, fractional or too large. It holds the
    /// number converted to `u64` with Rust's saturating float cast.
    Number(u64),
    /// A string.
    Text(String),
    /// `null`, a boolean, an array or an object.
    Other,
}

/// The fields of one channel record of a provider's channel list.
pub struct RawLiveStream {
    pub stream_id: JsonField,
    pub num: JsonField,
    pub name: JsonField,
    pub stream_icon: JsonField,
    pub epg_channel_id: JsonField,
    pub category_id: JsonField,
}

/// The channel id: an integer, a number cast to an integer, or a string
/// holding an integer (surrounding whitespace ignored); zero is no id.
pub open spec fn spec_stream_id(f: JsonField) -> Option<u64> {
    let id: Option<u64> = match f {
        JsonField::Unsigned(n) => Some(n),
        JsonField::Number(n) => Some(n),
        JsonField::Text(s) => match parse_u64(trim(s@)) {
            Some(v) => Some(v as u64),
            None => None,
        },
        _ => None,
    };
    match id {
        Some(n) => if n > 0 {
            Some(n)
        } else {
            None
        },
        None => None,
    }
}

/// A string field, or the empty string.
pub open spec fn spec_text(f: JsonField) -> Seq<char> {
    match f {
        JsonField::Text(s) => s@,
        _ => Seq::empty(),
    }
}

/// The channel number: an integer or a string holding one, cut to its low
/// 32 bits; zero otherwise.
pub open spec fn spec_num(f: JsonField) -> u32 {
    let n: int = match f {
        JsonField::Unsigned(n) => n as int,
        JsonField::Text(s) => match parse_u64(s@) {
            Some(v) => v,
            None => 0,
        },
        _ => 0,
    };
    (n % 0x1_0000_0000) as u32
}

/// The category of a record: a non-empty string, or an integer in decimal;
/// `"0"` otherwise.
pub open spec fn spec_category(f: JsonField) -> Seq<char> {
    match f {
        JsonField::Text(s) => if s@.len() > 0 {
            s@
        } else {
            "0"@
        },
        JsonField::Unsigned(n) => dec(n as nat),
        _ => "0"@,
    }
}

/// `s` is the channel read from record `r`.
pub open spec fn read_as(r: RawLiveStream, s: LiveStream) -> bool {
    &&& spec_stream_id(r.stream_id) == Some(s.stream_id)
    &&& s.num == spec_num(r.num)
    &&& s.name@ == spec_text(r.name)
    &&& s.stream_icon@ == spec_text(r.stream_icon)
    &&& s.epg_channel_id@ == spec_text(r.epg_channel_id)
}

/// Each field of a channel comes from the record field of the same name and
/// from no other: a text field is that field's string (empty when it is
/// missing or not a string); a positive integer id is the id; and two
/// records that agree on a field give channels that agree on it, whatever
/// their other fields hold.
pub proof fn lemma_read_as_fields(r: RawLiveStream, s: LiveStream, r2: RawLiveStream, s2: LiveStream)
    requires
        read_as(r, s),
        read_as(r2, s2),
    ensures
        s.name@ == (match r.name {
            JsonField::Text(t) => t@,
            _ => Seq::<char>::empty(),
        }),
        s.stream_icon@ == (match r.stream_icon {
            JsonField::Text(t) => t@,
            _ => Seq::<char>::empty(),
        }),
        s.epg_channel_id@ == (match r.epg_channel_id {
            JsonField::Text(t) => t@,
            _ => Seq::<char>::empty(),
        }),
        r.stream_id matches JsonField::Unsigned(n) ==> (n > 0 ==> s.stream_id == n),
        r.epg_channel_id == r2.epg_channel_id ==> s.epg_channel_id@ == s2.epg_channel_id@,
        r.name == r2.name ==> s.name@ == s2.name@,
        r.stream_icon == r2.stream_icon ==> s.stream_icon@ == s2.stream_icon@,
        r.num == r2.num ==> s.num == s2.num,
        r.stream_id == r2.stream_id ==> s.stream_id == s2.stream_id,
{
}

fn text_or_empty(f: &JsonField) -> (r: String)
    ensures
        r@ == spec_text(*f),
{
    match f {
        JsonField::Text(s) => s.clone(),
        _ => String::new(),
    }
}

fn read_stream_id(f: &JsonField) -> (r: Option<u64>)
    ensures
        r == spec_stream_id(*f),
{
    let id: Option<u64> = match f {
        JsonField::Unsigned(n) => Some(*n),
        JsonField::Number(n) => Some(*n),
        JsonField::Text(s) => {
            let v = chars_of(s.as_str());
            let (a, b) = trim_range(&v, 0, v.len());
            assert(v@.subrange(0, v@.len() as int) =~= v@);
            parse_u64_range(&v, a, b)
        },
        _ => None,
    };
    match id {
        Some(n) => if n > 0 {
            Some(n)
        } else {
            None
        },
        None => None,
    }
}

fn read_num(f: &JsonField) -> (r: u32)
    ensures
        r == spec_num(*f),
{
    let n: u64 = match f {
        JsonField::Unsigned(n) => *n,
        JsonField::Text(s) => {
            let v = chars_of(s.as_str());
            assert(v@.subrange(0, v@.len() as int) =~= v@);
            match parse_u64_range(&v, 0, v.len()) {
                Some(x) => x,
                None => 0,
            }
        },
        _ => 0,
    };
    (n % 0x1_0000_0000) as u32
}

/// The category of a record.
pub fn read_category(f: &JsonField) -> (r: String)
    ensures
        r@ == spec_category(*f),
{
    proof {
        reveal_strlit("0");
    }
    match f {
        JsonField::Text(s) => if s.as_str().is_empty() {
            String::from_str("0")
        } else {
            s.clone()
        },
        JsonField::Unsigned(n) => decimal_string(*n),
        _ => String::from_str("0"),
    }
}

/// Reads one channel record; `None` when it has no usable id.
pub fn parse_live_stream(r: &RawLiveStream) -> (s: Option<LiveStream>)
    ensures
        spec_stream_id(r.stream_id) is None <==> s is None,
        s matches Some(c) ==> read_as(*r, c),
{
    match read_stream_id(&r.stream_id) {
        None => None,
        Some(id) => Some(
            LiveStream {
                num: read_num(&r.num),
                name: text_or_empty(&r.name),
                stream_id: id,
                stream_icon: text_or_empty(&r.stream_icon),
                epg_channel_id: text_or_empty(&r.epg_channel_id),
            },
        ),
    }
}

/// The records with a usable id, each read and tagged with its category;
/// `channels` is the channels in record order.
pub open spec fn ingested(raws: Seq<RawLiveStream>, channels: Seq<(Seq<char>, LiveStream)>) -> bool
    decreases raws.len(),
{
    if raws.len() == 0 {
        channels.len() == 0
    } else {
        let r = raws.last();
        if spec_stream_id(r.stream_id) is Some {
            channels.len() > 0 && channels.last().0 == spec_category(r.category_id) && read_as(
                r,
                channels.last().1,
            ) && ingested(raws.drop_last(), channels.drop_last())
        } else {
            ingested(raws.drop_last(), channels)
        }
    }
}

/// How many records have no usable id.
pub open spec fn skipped(raws: Seq<RawLiveStream>) -> nat
    decreases raws.len(),
{
    if raws.len() == 0 {
        0
    } else {
        skipped(raws.drop_last()) + if spec_stream_id(raws.last().stream_id) is Some {
            0nat
        } else {
            1nat
        }
    }
}

/// The channels of a provider's list grouped by category.
pub struct LiveIngest {
    pub groups: Vec<Group<LiveStream>>,
    pub total: usize,
    pub skipped: usize,
}

/// Reads every record of a provider's channel list and groups the channels
/// by category (categories in order of first appearance, channels in list
/// order); records without a usable id are counted and left out.
pub fn group_live_streams(raws: &Vec<RawLiveStream>) -> (r: LiveIngest)
    ensures
        exists|channels: Seq<(Seq<char>, LiveStream)>|
            ingested(raws@, channels) && groups_view(r.groups@) == grouped(channels) && r.total
                == channels.len(),
        r.skipped == skipped(raws@),
{
    let mut groups: Vec<Group<LiveStream>> = Vec::new();
    let ghost mut channels: Seq<(Seq<char>, LiveStream)> = Seq::empty();
    let mut total: usize = 0;
    let mut skip: usize = 0;
    let mut i: usize = 0;
    assert(raws@.take(0) =~= Seq::<RawLiveStream>::empty());
    while i < raws.len()
        invariant
            i <= raws.len(),
            ingested(raws@.take(i as int), channels),
            groups_view(groups@) == grouped(channels),
            total == channels.len(),
            skip == skipped(raws@.take(i as int)),
            total + skip == i,
        decreases raws.len() - i,
    {
        assert(raws@.take(i + 1).drop_last() =~= raws@.take(i as int));
        assert(raws@.take(i + 1).last() == raws@[i as int]);
        let cat = read_category(&raws[i].category_id);
        match parse_live_stream(&raws[i]) {
            Some(s) => {
                let ghost before = channels;
                proof {
                    channels = channels.push((cat@, s));
                    assert(channels.drop_last() =~= before);
                }
                push_grouped(&mut groups, cat, s);
                total = total + 1;
            },
            None => {
                skip = skip + 1;
            },
        }
        i = i + 1;
    }
    assert(raws@.take(raws.len() as int) =~= raws@);
    LiveIngest { groups, total, skipped: skip }
}

/// `gs` with the items of each of `news` set, in order.
pub open spec fn set_all<T>(gs: Seq<(Seq<char>, Seq<T>)>, news: Seq<(Seq<char>, Seq<T>)>) -> Seq<
    (Seq<char>, Seq<T>),
>
    decreases news.len(),
{
    if news.len() == 0 {
        gs
    } else {
        group_set(set_all(gs, news.drop_last()), news.last().0, news.last().1)
    }
}

/// `stamps` with the stamp of each live category of `news` set to `now`.
pub open spec fn stamp_all<T>(
    stamps: Seq<(Seq<char>, i64)>,
    news: Seq<(Seq<char>, Seq<T>)>,
    now: i64,
) -> Seq<(Seq<char>, i64)>
    decreases news.len(),
{
    if news.len() == 0 {
        stamps
    } else {
        with_entry(
            stamp_all(stamps, news.drop_last(), now),
            spec_stream_key(CatalogueKind::Live, news.last().0),
            now,
        )
    }
}

/// Files every group of channels into the cache, each category stamped
/// `now`.
pub fn store_live_groups(pc: &mut ProfileCache, groups: Vec<Group<LiveStream>>, now: i64)
    ensures
        groups_view(final(pc).live_streams@) == set_all(
            groups_view(old(pc).live_streams@),
            groups_view(groups@),
        ),
        entries_view(final(pc).streams_at@) == stamp_all(
            entries_view(old(pc).streams_at@),
            groups_view(groups@),
            now,
        ),
        final(pc).vod_streams@ == old(pc).vod_streams@,
        final(pc).series_items@ == old(pc).series_items@,
        same_categories(*final(pc), *old(pc)),
        same_playlist(*final(pc), *old(pc)),
        same_guides(*final(pc), *old(pc)),
{
    let ghost pc0 = *pc;
    let ghost gv = groups_view(groups@);
    let ghost live0 = groups_view(pc.live_streams@);
    let ghost stamps0 = entries_view(pc.streams_at@);
    let mut rest = groups;
    let n = rest.len();
    let mut i: usize = 0;
    assert(gv.take(0) =~= Seq::<(Seq<char>, Seq<LiveStream>)>::empty());
    while i < n
        invariant
            i <= n,
            n == gv.len(),
            rest.len() == n - i,
            groups_view(rest@) == gv.skip(i as int),
            groups_view(pc.live_streams@) == set_all(live0, gv.take(i as int)),
            entries_view(pc.streams_at@) == stamp_all(stamps0, gv.take(i as int), now),
            pc.vod_streams@ == pc0.vod_streams@,
            pc.series_items@ == pc0.series_items@,
            same_categories(*pc, pc0),
            same_playlist(*pc, pc0),
            same_guides(*pc, pc0),
        decreases n - i,
    {
        let ghost rv = rest@;
        let g = rest.remove(0);
        assert(g == rv[0]);
        assert(groups_view(rv)[0] == (g.key@, g.items@));
        assert(groups_view(rest@) =~= groups_view(rv).drop_first());
        assert(gv.skip(i + 1) =~= gv.skip(i as int).drop_first());
        assert(gv.take(i + 1).drop_last() =~= gv.take(i as int));
        assert(gv.take(i + 1).last() == (g.key@, g.items@));
        pc.store_live_streams(g.key, g.items, now);
        i = i + 1;
    }
    assert(gv.take(n as int) =~= gv);
}

} // verus!
