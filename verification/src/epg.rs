//! Programme guides: the XMLTV state machine that collects each channel's
//! listings from a stream of XML events.

use vstd::prelude::*;
use vstd::utf8::encode_utf8;

use crate::group::{
    Group, group_insert, groups_view, lemma_map_group_insert, map_groups, push_grouped,
};
use crate::m3u8::{b64, b64_encode, spec_xmltv_time, xmltv_sliceable, xmltv_time_checked};
use crate::xml::{
    XmlAttribute, XmlEvent, XmlEventView, XmlEvents, attribute_view, lossy_utf8, utf8_lossy,
    xml_events,
};

verus! {

/// One programme of a channel; title and description are base64 of their
/// UTF-8 text.
pub struct EpgListing {
    pub title: String,
    pub description: String,
    pub start_timestamp: i64,
    pub stop_timestamp: i64,
}

impl Clone for EpgListing {
    fn clone(&self) -> (r: EpgListing)
        ensures
            r == *self,
    {
        EpgListing {
            title: self.title.clone(),
            description: self.description.clone(),
            start_timestamp: self.start_timestamp,
            stop_timestamp: self.stop_timestamp,
        }
    }
}

pub open spec fn listing_view(l: EpgListing) -> (Seq<char>, Seq<char>, i64, i64) {
    (l.title@, l.description@, l.start_timestamp, l.stop_timestamp)
}

/// The guide as (channel, listings) pairs.
pub open spec fn guide_view(gs: Seq<Group<EpgListing>>) -> Seq<
    (Seq<char>, Seq<(Seq<char>, Seq<char>, i64, i64)>),
> {
    map_groups(groups_view(gs), |l: EpgListing| listing_view(l))
}

/// `programme` in ASCII.
pub open spec fn tag_programme() -> Seq<u8> {
    seq![112u8, 114u8, 111u8, 103u8, 114u8, 97u8, 109u8, 109u8, 101u8]
}

/// `title` in ASCII.
pub open spec fn tag_title() -> Seq<u8> {
    seq![116u8, 105u8, 116u8, 108u8, 101u8]
}

/// `desc` in ASCII.
pub open spec fn tag_desc() -> Seq<u8> {
    seq![100u8, 101u8, 115u8, 99u8]
}

/// `channel` in ASCII.
pub open spec fn tag_channel() -> Seq<u8> {
    seq![99u8, 104u8, 97u8, 110u8, 110u8, 101u8, 108u8]
}

/// `start` in ASCII.
pub open spec fn tag_start() -> Seq<u8> {
    seq![115u8, 116u8, 97u8, 114u8, 116u8]
}

/// `stop` in ASCII.
pub open spec fn tag_stop() -> Seq<u8> {
    seq![115u8, 116u8, 111u8, 112u8]
}

/// Where the reading of a guide stands.
pub struct GuideState {
    pub in_programme: bool,
    pub channel: Seq<char>,
    pub start: i64,
    pub stop: i64,
    pub title: Seq<char>,
    pub desc: Seq<char>,
    pub capture_title: bool,
    pub capture_desc: bool,
    /// The document ended or could not be read further.
    pub finished: bool,
    /// A `start` or `stop` attribute could not be sliced as a timestamp.
    pub failed: bool,
    pub guide: Seq<(Seq<char>, Seq<(Seq<char>, Seq<char>, i64, i64)>)>,
}

pub open spec fn initial_guide() -> GuideState {
    GuideState {
        in_programme: false,
        channel: seq![],
        start: 0,
        stop: 0,
        title: seq![],
        desc: seq![],
        capture_title: false,
        capture_desc: false,
        finished: false,
        failed: false,
        guide: seq![],
    }
}

/// The value of a timestamp attribute, or the failure to slice it.
pub open spec fn with_time(st: GuideState, value: Seq<u8>, is_start: bool) -> GuideState {
    let s = lossy_utf8(value);
    if !xmltv_sliceable(s) {
        GuideState { failed: true, ..st }
    } else if is_start {
        GuideState { start: spec_xmltv_time(s) as i64, ..st }
    } else {
        GuideState { stop: spec_xmltv_time(s) as i64, ..st }
    }
}

/// One attribute of a `<programme>` tag: `channel`, `start` and `stop` are
/// read, the others ignored.
pub open spec fn apply_attribute(st: GuideState, a: Option<(Seq<u8>, Seq<u8>)>) -> GuideState {
    if st.failed {
        st
    } else {
        match a {
            None => st,
            Some((k, v)) => {
                if k == tag_channel() {
                    GuideState { channel: lossy_utf8(v), ..st }
                } else if k == tag_start() {
                    with_time(st, v, true)
                } else if k == tag_stop() {
                    with_time(st, v, false)
                } else {
                    st
                }
            },
        }
    }
}

/// The attributes applied in order.
pub open spec fn apply_attributes(st: GuideState, attrs: Seq<Option<(Seq<u8>, Seq<u8>)>>) -> GuideState
    decreases attrs.len(),
{
    if attrs.len() == 0 {
        st
    } else {
        apply_attribute(apply_attributes(st, attrs.drop_last()), attrs.last())
    }
}

/// The state at the opening of a `<programme>` tag, before its attributes.
pub open spec fn programme_opened(st: GuideState) -> GuideState {
    GuideState {
        in_programme: true,
        channel: seq![],
        start: 0,
        stop: 0,
        title: seq![],
        desc: seq![],
        ..st
    }
}

/// The listing that a closing `</programme>` records.
pub open spec fn current_listing(st: GuideState) -> (Seq<char>, Seq<char>, i64, i64) {
    (b64(encode_utf8(st.title)), b64(encode_utf8(st.desc)), st.start, st.stop)
}

/// One event: `<programme>` opens a programme and reads its channel and
/// times; `<title>` and `<desc>` inside a programme start capturing text;
/// text goes to whichever is being captured; `</programme>` records the
/// programme under its channel when it has a channel and a positive start;
/// the end of the document or a read error finishes the guide.
pub open spec fn guide_step(st: GuideState, ev: XmlEventView) -> GuideState {
    match ev {
        XmlEventView::Start(name, attrs) => {
            if name == tag_programme() {
                apply_attributes(programme_opened(st), attrs)
            } else if name == tag_title() && st.in_programme {
                GuideState { capture_title: true, ..st }
            } else if name == tag_desc() && st.in_programme {
                GuideState { capture_desc: true, ..st }
            } else {
                st
            }
        },
        XmlEventView::Text(t) => match t {
            Some(x) => if st.capture_title {
                GuideState { title: x, ..st }
            } else if st.capture_desc {
                GuideState { desc: x, ..st }
            } else {
                st
            },
            None => st,
        },
        XmlEventView::End(name) => {
            if name == tag_programme() && st.in_programme {
                let guide = if st.channel.len() > 0 && st.start > 0 {
                    group_insert(st.guide, st.channel, current_listing(st))
                } else {
                    st.guide
                };
                GuideState {
                    guide,
                    in_programme: false,
                    capture_title: false,
                    capture_desc: false,
                    ..st
                }
            } else if name == tag_title() {
                GuideState { capture_title: false, ..st }
            } else if name == tag_desc() {
                GuideState { capture_desc: false, ..st }
            } else {
                st
            }
        },
        XmlEventView::Eof => GuideState { finished: true, ..st },
        XmlEventView::Error => GuideState { finished: true, ..st },
        XmlEventView::Other => st,
    }
}

/// The state after a sequence of events; events after the guide finished or
/// failed change nothing.
pub open spec fn guide_run(evs: Seq<XmlEventView>) -> GuideState
    decreases evs.len(),
{
    if evs.len() == 0 {
        initial_guide()
    } else {
        let st = guide_run(evs.drop_last());
        if st.finished || st.failed {
            st
        } else {
            guide_step(st, evs.last())
        }
    }
}

/// `r` is the outcome of reading `evs`: `None` exactly when a timestamp
/// could not be sliced, otherwise the guide collected.
pub open spec fn guide_outcome(evs: Seq<XmlEventView>, r: Option<Seq<Group<EpgListing>>>) -> bool {
    &&& (r is None <==> guide_run(evs).failed)
    &&& r matches Some(g) ==> guide_view(g) == guide_run(evs).guide
}

pub open spec fn seq_of(r: Option<Vec<Group<EpgListing>>>) -> Option<Seq<Group<EpgListing>>> {
    match r {
        Some(g) => Some(g@),
        None => None,
    }
}

fn is_tag(name: &Vec<u8>, tag: &Vec<u8>) -> (r: bool)
    ensures
        r == (name@ == tag@),
{
    if name.len() != tag.len() {
        return false;
    }
    let mut i: usize = 0;
    while i < name.len()
        invariant
            name.len() == tag.len(),
            i <= name.len(),
            forall|j: int| 0 <= j < i ==> name@[j] == tag@[j],
        decreases name.len() - i,
    {
        if name[i] != tag[i] {
            return false;
        }
        i = i + 1;
    }
    assert(name@ =~= tag@);
    true
}

/// The exec state of a guide being read.
pub struct GuideBuilder {
    pub in_programme: bool,
    pub channel: String,
    pub start: i64,
    pub stop: i64,
    pub title: String,
    pub desc: String,
    pub capture_title: bool,
    pub capture_desc: bool,
    pub finished: bool,
    pub failed: bool,
    pub guide: Vec<Group<EpgListing>>,
}

impl View for GuideBuilder {
    type V = GuideState;

    open spec fn view(&self) -> GuideState {
        GuideState {
            in_programme: self.in_programme,
            channel: self.channel@,
            start: self.start,
            stop: self.stop,
            title: self.title@,
            desc: self.desc@,
            capture_title: self.capture_title,
            capture_desc: self.capture_desc,
            finished: self.finished,
            failed: self.failed,
            guide: guide_view(self.guide@),
        }
    }
}

impl GuideBuilder {
    pub fn new() -> (r: GuideBuilder)
        ensures
            r@ == initial_guide(),
    {
        let r = GuideBuilder {
            in_programme: false,
            channel: String::new(),
            start: 0,
            stop: 0,
            title: String::new(),
            desc: String::new(),
            capture_title: false,
            capture_desc: false,
            finished: false,
            failed: false,
            guide: Vec::new(),
        };
        assert(r@.guide =~= Seq::empty());
        r
    }

    fn read_time(&mut self, value: &Vec<u8>, is_start: bool)
        ensures
            final(self)@ == with_time(old(self)@, value@, is_start),
    {
        let s = utf8_lossy(value.as_slice());
        match xmltv_time_checked(s.as_str()) {
            None => {
                self.failed = true;
            },
            Some(t) => {
                if is_start {
                    self.start = t;
                } else {
                    self.stop = t;
                }
            },
        }
    }

    fn read_attributes(&mut self, attrs: &Vec<Option<XmlAttribute>>)
        ensures
            final(self)@ == apply_attributes(
                old(self)@,
                attrs@.map_values(|a: Option<XmlAttribute>| attribute_view(a)),
            ),
    {
        let ghost av = attrs@.map_values(|a: Option<XmlAttribute>| attribute_view(a));
        let channel_tag = vec![99u8, 104u8, 97u8, 110u8, 110u8, 101u8, 108u8];
        let start_tag = vec![115u8, 116u8, 97u8, 114u8, 116u8];
        let stop_tag = vec![115u8, 116u8, 111u8, 112u8];
        let ghost st0 = self@;
        let mut i: usize = 0;
        assert(av.take(0) =~= Seq::<Option<(Seq<u8>, Seq<u8>)>>::empty());
        while i < attrs.len()
            invariant
                i <= attrs.len(),
                av == attrs@.map_values(|a: Option<XmlAttribute>| attribute_view(a)),
                self@ == apply_attributes(st0, av.take(i as int)),
                channel_tag@ == tag_channel(),
                start_tag@ == tag_start(),
                stop_tag@ == tag_stop(),
            decreases attrs.len() - i,
        {
            assert(av.take(i + 1).drop_last() =~= av.take(i as int));
            assert(av.take(i + 1).last() == attribute_view(attrs@[i as int]));
            if !self.failed {
                match &attrs[i] {
                    None => {},
                    Some(a) => {
                        if is_tag(&a.key, &channel_tag) {
                            self.channel = utf8_lossy(a.value.as_slice());
                        } else if is_tag(&a.key, &start_tag) {
                            self.read_time(&a.value, true);
                        } else if is_tag(&a.key, &stop_tag) {
                            self.read_time(&a.value, false);
                        }
                    },
                }
            }
            i = i + 1;
        }
        assert(av.take(attrs.len() as int) =~= av);
    }

    /// Takes one event while the guide is neither finished nor failed.
    pub fn feed(&mut self, ev: &XmlEvent)
        requires
            !old(self).finished,
            !old(self).failed,
        ensures
            final(self)@ == guide_step(old(self)@, ev@),
    {
        let programme_tag = vec![112u8, 114u8, 111u8, 103u8, 114u8, 97u8, 109u8, 109u8, 101u8];
        let title_tag = vec![116u8, 105u8, 116u8, 108u8, 101u8];
        let desc_tag = vec![100u8, 101u8, 115u8, 99u8];
        match ev {
            XmlEvent::Start { name, attributes } => {
                if is_tag(name, &programme_tag) {
                    self.in_programme = true;
                    self.title = String::new();
                    self.desc = String::new();
                    self.channel = String::new();
                    self.start = 0;
                    self.stop = 0;
                    self.read_attributes(attributes);
                } else if is_tag(name, &title_tag) && self.in_programme {
                    self.capture_title = true;
                } else if is_tag(name, &desc_tag) && self.in_programme {
                    self.capture_desc = true;
                }
            },
            XmlEvent::Text { text } => {
                match text {
                    Some(t) => {
                        if self.capture_title {
                            self.title = t.clone();
                        } else if self.capture_desc {
                            self.desc = t.clone();
                        }
                    },
                    None => {},
                }
            },
            XmlEvent::End { name } => {
                if is_tag(name, &programme_tag) && self.in_programme {
                    if !self.channel.as_str().is_empty() && self.start > 0 {
                        let listing = EpgListing {
                            title: b64_encode(self.title.as_str()),
                            description: b64_encode(self.desc.as_str()),
                            start_timestamp: self.start,
                            stop_timestamp: self.stop,
                        };
                        proof {
                            lemma_map_group_insert(
                                groups_view(self.guide@),
                                self.channel@,
                                listing,
                                |l: EpgListing| listing_view(l),
                            );
                        }
                        push_grouped(&mut self.guide, self.channel.clone(), listing);
                    }
                    self.in_programme = false;
                    self.capture_title = false;
                    self.capture_desc = false;
                } else if is_tag(name, &title_tag) {
                    self.capture_title = false;
                } else if is_tag(name, &desc_tag) {
                    self.capture_desc = false;
                }
            },
            XmlEvent::Eof => {
                self.finished = true;
            },
            XmlEvent::Error => {
                self.finished = true;
            },
            XmlEvent::Other => {},
        }
    }
}

/// The guide collected from a list of XML events (the events after the end
/// of the document are ignored); `None` when a timestamp could not be sliced.
pub fn guide_from_events(events: &Vec<XmlEvent>) -> (r: Option<Vec<Group<EpgListing>>>)
    ensures
        guide_outcome(events@.map_values(|e: XmlEvent| e@), seq_of(r)),
{
    let ghost evs = events@.map_values(|e: XmlEvent| e@);
    let mut b = GuideBuilder::new();
    let mut i: usize = 0;
    assert(evs.take(0) =~= Seq::<XmlEventView>::empty());
    while i < events.len()
        invariant
            i <= events.len(),
            evs == events@.map_values(|e: XmlEvent| e@),
            b@ == guide_run(evs.take(i as int)),
        decreases events.len() - i,
    {
        assert(evs.take(i + 1).drop_last() =~= evs.take(i as int));
        assert(evs.take(i + 1).last() == events@[i as int]@);
        if !b.finished && !b.failed {
            b.feed(&events[i]);
        }
        i = i + 1;
    }
    assert(evs.take(events.len() as int) =~= evs);
    if b.failed {
        None
    } else {
        Some(b.guide)
    }
}

/// Once the guide is finished or failed, later events change nothing.
pub proof fn lemma_guide_run_settled(evs: Seq<XmlEventView>, k: int)
    requires
        0 <= k <= evs.len(),
        guide_run(evs.take(k)).finished || guide_run(evs.take(k)).failed,
    ensures
        guide_run(evs) == guide_run(evs.take(k)),
    decreases evs.len() - k,
{
    if k < evs.len() {
        assert(evs.take(k + 1).drop_last() =~= evs.take(k));
        lemma_guide_run_settled(evs, k + 1);
    } else {
        assert(evs.take(k) =~= evs);
    }
}

/// Reads an XMLTV document into each channel's listings (channels in order
/// of first appearance): what `guide_run` makes of the events quick-xml
/// gives for the document, text trimmed. The first `data.len() + 1` events
/// are taken, which reach the end of the document: in quick-xml every event
/// before `Eof` consumes at least one byte. `None` exactly when a timestamp
/// attribute could not be sliced.
pub fn parse_epg_xml(data: &[u8]) -> (r: Option<Vec<Group<EpgListing>>>)
    ensures
        guide_outcome(xml_events(data@, (data@.len() + 1) as nat), seq_of(r)),
{
    let ghost all = xml_events(data@, (data@.len() + 1) as nat);
    let mut events = XmlEvents::open(data);
    let mut b = GuideBuilder::new();
    let mut count: u128 = 0;
    assert(all.take(0) =~= Seq::<XmlEventView>::empty());
    while !b.finished && !b.failed && count <= data.len() as u128
        invariant
            all == xml_events(data@, (data@.len() + 1) as nat),
            events.source() == data@,
            events.given() == count,
            count <= data@.len() + 1,
            b@ == guide_run(all.take(count as int)),
        decreases data@.len() + 1 - count,
    {
        let ev = events.next();
        assert(all.take(count + 1).drop_last() =~= all.take(count as int));
        assert(all.take(count + 1).last() == ev@);
        b.feed(&ev);
        count = count + 1;
    }
    proof {
        if b.finished || b.failed {
            lemma_guide_run_settled(all, count as int);
        } else {
            assert(all.take(count as int) =~= all);
        }
    }
    if b.failed {
        None
    } else {
        Some(b.guide)
    }
}

} // verus!
