use vstd::prelude::*;
use crate::types::{rfc3339_text, to_rfc3339, utc_now, Entry, Timestamp};
use crate::xml::{
    laid_out, one_attr, push_end, push_event, push_start, push_text_element, text_element, write_xml, xml_attrs_view, xml_document,
    xml_view, XmlEvent, XmlModel,
};

verus! {

/// An article as the Atom feed lists it.
pub type Atom = Entry;

/// The address of a page of the site from its relative URL.
pub open spec fn site_url(rel: Seq<char>) -> Seq<char> {
    "https://shettysach.github.io/"@ + rel
}

/// The address of a page of the site from its relative URL.
pub fn site_address(rel: &str) -> (r: String)
    ensures
        r@ == site_url(rel@),
{
    let mut url = "https://shettysach.github.io/".to_owned();
    url.append(rel);
    url
}

/// The latest date of a non-empty list of entries (the last of equally late ones).
pub open spec fn latest_datetime(es: Seq<Entry>) -> Timestamp
    decreases es.len(),
{
    if es.len() <= 1 {
        es[0].datetime
    } else {
        let m = latest_datetime(es.drop_last());
        if es.last().datetime.before(m) {
            m
        } else {
            es.last().datetime
        }
    }
}

/// When the feed was last updated: the latest date of its entries, or `now`
/// when it has none.
pub open spec fn feed_updated(es: Seq<Entry>, now: Timestamp) -> Timestamp {
    if es.len() == 0 {
        now
    } else {
        latest_datetime(es)
    }
}

/// The events of the feed's header: author, title, id, link to itself, and the
/// time of its last update.
pub open spec fn feed_head(updated: Timestamp) -> Seq<XmlModel> {
    seq![XmlModel::Decl, XmlModel::Start("feed"@, seq![("xmlns"@, "http://www.w3.org/2005/Atom"@)])]
        + seq![XmlModel::Start("author"@, Seq::empty())]
        + text_element("name"@, "Sachith Shetty"@)
        + text_element("email"@, "shettysachith47@gmail.com"@)
        + seq![XmlModel::End("author"@)]
        + text_element("title"@, "Sachith's Blog"@)
        + text_element("id"@, "https://shettysach.github.io/"@)
        + seq![XmlModel::Empty("link"@, seq![("href"@, "https://shettysach.github.io/atom.xml"@), ("rel"@, "self"@)])]
        + text_element("updated"@, rfc3339_text(updated.secs, updated.nanos))
}

/// The events of one feed entry: title, id and link (the article's address),
/// date, and its subtitle as summary when it has one.
pub open spec fn feed_entry(e: Entry) -> Seq<XmlModel> {
    seq![XmlModel::Start("entry"@, Seq::empty())]
        + text_element("title"@, e.title@)
        + text_element("id"@, site_url(e.url@))
        + text_element("updated"@, rfc3339_text(e.datetime.secs, e.datetime.nanos))
        + seq![XmlModel::Empty("link"@, seq![("href"@, site_url(e.url@))])]
        + match e.subtitle {
            Some(s) => text_element("summary"@, s@),
            None => Seq::empty(),
        }
        + seq![XmlModel::End("entry"@)]
}

/// The events of the entries of a feed, in order.
pub open spec fn feed_entries(es: Seq<Entry>) -> Seq<XmlModel>
    decreases es.len(),
{
    if es.len() == 0 {
        Seq::empty()
    } else {
        feed_entries(es.drop_last()) + feed_entry(es.last())
    }
}

/// The events of the Atom feed of the entries, updated at `now` when there are none.
pub open spec fn atom_feed(es: Seq<Entry>, now: Timestamp) -> Seq<XmlModel> {
    feed_head(feed_updated(es, now)) + feed_entries(es) + seq![XmlModel::End("feed"@)]
}

/// The latest date of a list of entries, or `now` when it is empty.
fn latest(entries: &Vec<Atom>, now: Timestamp) -> (r: Timestamp)
    ensures
        r == feed_updated(entries@, now),
{
    if entries.len() == 0 {
        return now;
    }
    let mut m = entries[0].datetime;
    let mut i: usize = 1;
    proof {
        assert(entries@.take(1).len() == 1);
    }
    while i < entries.len()
        invariant
            1 <= i <= entries@.len(),
            m == latest_datetime(entries@.take(i as int)),
        decreases entries@.len() - i,
    {
        proof {
            assert(entries@.take(i + 1).drop_last() =~= entries@.take(i as int));
            assert(entries@.take(i + 1).last() == entries@[i as int]);
        }
        if !entries[i].datetime.is_before(&m) {
            m = entries[i].datetime;
        }
        i = i + 1;
    }
    proof {
        assert(entries@.take(entries@.len() as int) =~= entries@);
    }
    m
}

/// The events of the Atom feed of the entries; `now` is the update time of a
/// feed without entries.
pub fn atom_feed_events(entries: &Vec<Atom>, now: Timestamp) -> (r: Vec<XmlEvent>)
    requires
        now.valid(),
        forall|i: int| 0 <= i < entries@.len() ==> (#[trigger] entries@[i]).datetime.valid(),
    ensures
        xml_view(r@) == atom_feed(entries@, now),
{
    let mut events: Vec<XmlEvent> = Vec::new();
    push_event(&mut events, XmlEvent::Decl);
    push_event(&mut events, XmlEvent::Start("feed".to_owned(), one_attr("xmlns", "http://www.w3.org/2005/Atom")));
    push_start(&mut events, "author");
    push_text_element(&mut events, "name", "Sachith Shetty");
    push_text_element(&mut events, "email", "shettysachith47@gmail.com");
    push_end(&mut events, "author");
    push_text_element(&mut events, "title", "Sachith's Blog");
    push_text_element(&mut events, "id", "https://shettysach.github.io/");
    let mut link: Vec<(String, String)> = one_attr("href", "https://shettysach.github.io/atom.xml");
    let ghost first = link@;
    let rel = ("rel".to_owned(), "self".to_owned());
    assert(rel.0@ == "rel"@ && rel.1@ == "self"@);
    link.push(rel);
    proof {
        assert(link@ == first.push(rel));
        assert(xml_attrs_view(link@) =~= xml_attrs_view(first).push((rel.0@, rel.1@)));
        assert(xml_attrs_view(link@) =~= seq![("href"@, "https://shettysach.github.io/atom.xml"@), ("rel"@, "self"@)]);
    }
    push_event(&mut events, XmlEvent::Empty("link".to_owned(), link));
    let updated = latest(entries, now);
    proof {
        if entries@.len() > 0 {
            lemma_latest_is_an_entry_date(entries@);
        }
    }
    push_text_element(&mut events, "updated", to_rfc3339(&updated).as_str());
    proof {
        assert(xml_view(events@) =~= feed_head(feed_updated(entries@, now)));
    }
    let ghost head = xml_view(events@);
    let mut i: usize = 0;
    proof {
        assert(entries@.take(0) =~= Seq::<Entry>::empty());
        assert(head + Seq::<XmlModel>::empty() =~= head);
    }
    while i < entries.len()
        invariant
            i <= entries@.len(),
            forall|j: int| 0 <= j < entries@.len() ==> (#[trigger] entries@[j]).datetime.valid(),
            xml_view(events@) == head + feed_entries(entries@.take(i as int)),
        decreases entries@.len() - i,
    {
        let ghost before = xml_view(events@);
        let entry = &entries[i];
        push_start(&mut events, "entry");
        push_text_element(&mut events, "title", entry.title.as_str());
        let url = site_address(entry.url.as_str());
        push_text_element(&mut events, "id", url.as_str());
        push_text_element(&mut events, "updated", to_rfc3339(&entry.datetime).as_str());
        push_event(&mut events, XmlEvent::Empty("link".to_owned(), one_attr("href", url.as_str())));
        let ghost mid = xml_view(events@);
        if let Some(sub) = &entry.subtitle {
            push_text_element(&mut events, "summary", sub.as_str());
        } else {
            assert(mid + Seq::<XmlModel>::empty() =~= mid);
        }
        push_end(&mut events, "entry");
        proof {
            assert(xml_view(events@) =~= before + feed_entry(entries@[i as int]));
            assert(entries@.take(i + 1).drop_last() =~= entries@.take(i as int));
            assert(entries@.take(i + 1).last() == entries@[i as int]);
        }
        i = i + 1;
    }
    proof {
        assert(entries@.take(entries@.len() as int) =~= entries@);
    }
    push_end(&mut events, "feed");
    events
}

/// The latest date of a non-empty list is one of its dates.
proof fn lemma_latest_is_an_entry_date(es: Seq<Entry>)
    requires
        es.len() > 0,
    ensures
        exists|i: int| 0 <= i < es.len() && es[i].datetime == latest_datetime(es),
    decreases es.len(),
{
    if es.len() > 1 {
        lemma_latest_is_an_entry_date(es.drop_last());
        let i = choose|i: int| 0 <= i < es.drop_last().len() && es.drop_last()[i].datetime == latest_datetime(es.drop_last());
        assert(es[i] == es.drop_last()[i]);
        assert(es[es.len() - 1] == es.last());
    } else {
        assert(es[0].datetime == latest_datetime(es));
    }
}

proof fn lemma_latest_not_before(es: Seq<Entry>)
    requires
        es.len() > 0,
    ensures
        forall|i: int| 0 <= i < es.len() ==> !latest_datetime(es).before(#[trigger] es[i].datetime),
    decreases es.len(),
{
    if es.len() > 1 {
        lemma_latest_not_before(es.drop_last());
        assert forall|i: int| 0 <= i < es.len() implies !latest_datetime(es).before(#[trigger] es[i].datetime) by {
            if i < es.len() - 1 {
                assert(es[i] == es.drop_last()[i]);
            }
        }
    }
}

/// A feed with entries was last updated at the date of one of them, and none of
/// its entries is dated later than that.
pub proof fn law_feed_updated_is_latest(es: Seq<Entry>, now: Timestamp)
    requires
        es.len() > 0,
    ensures
        exists|i: int| 0 <= i < es.len() && es[i].datetime == feed_updated(es, now),
        forall|i: int| 0 <= i < es.len() ==> !feed_updated(es, now).before(#[trigger] es[i].datetime),
{
    lemma_latest_is_an_entry_date(es);
    lemma_latest_not_before(es);
}

/// A feed with entries does not depend on when it is generated: only a feed
/// without entries takes its update time from the clock.
pub proof fn law_feed_of_entries_ignores_the_clock(es: Seq<Entry>, now1: Timestamp, now2: Timestamp)
    requires
        es.len() > 0,
    ensures
        atom_feed(es, now1) == atom_feed(es, now2),
{
}

/// The feed shows entry `e` from position `p`: an `entry` element with the
/// entry's own title, its address as id, its own date as update time, a link to
/// its address and, when it has a subtitle, that subtitle as summary.
pub open spec fn shows_entry(feed: Seq<XmlModel>, p: int, e: Entry) -> bool {
    let url = "https://shettysach.github.io/"@ + e.url@;
    let date = rfc3339_text(e.datetime.secs, e.datetime.nanos);
    &&& 0 <= p
    &&& p + 12 <= feed.len()
    &&& feed[p] == XmlModel::Start("entry"@, Seq::empty())
    &&& feed[p + 1] == XmlModel::Start("title"@, Seq::empty())
    &&& feed[p + 2] == XmlModel::Text(e.title@)
    &&& feed[p + 3] == XmlModel::End("title"@)
    &&& feed[p + 4] == XmlModel::Start("id"@, Seq::empty())
    &&& feed[p + 5] == XmlModel::Text(url)
    &&& feed[p + 6] == XmlModel::End("id"@)
    &&& feed[p + 7] == XmlModel::Start("updated"@, Seq::empty())
    &&& feed[p + 8] == XmlModel::Text(date)
    &&& feed[p + 9] == XmlModel::End("updated"@)
    &&& feed[p + 10] == XmlModel::Empty("link"@, seq![("href"@, url)])
    &&& match e.subtitle {
        Some(sub) => {
            &&& p + 15 <= feed.len()
            &&& feed[p + 11] == XmlModel::Start("summary"@, Seq::empty())
            &&& feed[p + 12] == XmlModel::Text(sub@)
            &&& feed[p + 13] == XmlModel::End("summary"@)
            &&& feed[p + 14] == XmlModel::End("entry"@)
        },
        None => feed[p + 11] == XmlModel::End("entry"@),
    }
}

/// Where entry `k` starts among the events of the entries.
proof fn lemma_entry_offset(es: Seq<Entry>, k: int) -> (p: int)
    requires
        0 <= k < es.len(),
    ensures
        0 <= p,
        p + feed_entry(es[k]).len() <= feed_entries(es).len(),
        feed_entries(es).subrange(p, p + feed_entry(es[k]).len()) == feed_entry(es[k]),
    decreases es.len(),
{
    let a = feed_entries(es.drop_last());
    let b = feed_entry(es.last());
    assert(feed_entries(es) == a + b);
    if k == es.len() - 1 {
        assert((a + b).subrange(a.len() as int, (a.len() + b.len()) as int) =~= b);
        a.len() as int
    } else {
        assert(es.drop_last()[k] == es[k]);
        let p = lemma_entry_offset(es.drop_last(), k);
        assert((a + b).subrange(p, p + feed_entry(es[k]).len()) =~= a.subrange(p, p + feed_entry(es[k]).len()));
        p
    }
}

/// Each entry of a feed is listed with its own fields, whatever the other
/// entries hold: its title, its address, its own date and its own summary.
pub proof fn law_feed_lists_each_entry_with_its_own_fields(es: Seq<Entry>, now: Timestamp, k: int)
    requires
        0 <= k < es.len(),
    ensures
        exists|p: int| #[trigger] shows_entry(atom_feed(es, now), p, es[k]),
{
    let q = lemma_entry_offset(es, k);
    let head = feed_head(feed_updated(es, now));
    let feed = atom_feed(es, now);
    let e = es[k];
    let fe = feed_entry(e);
    let p = head.len() + q;
    assert(feed == head + feed_entries(es) + seq![XmlModel::End("feed"@)]);
    assert forall|j: int| 0 <= j < fe.len() implies feed[p + j] == #[trigger] fe[j] by {
        assert(feed_entries(es).subrange(q, q + fe.len())[j] == fe[j]);
        assert(feed[p + j] == feed_entries(es)[q + j]);
    }
    let url = site_url(e.url@);
    let date = rfc3339_text(e.datetime.secs, e.datetime.nanos);
    let common = seq![
        XmlModel::Start("entry"@, Seq::empty()),
        XmlModel::Start("title"@, Seq::empty()),
        XmlModel::Text(e.title@),
        XmlModel::End("title"@),
        XmlModel::Start("id"@, Seq::empty()),
        XmlModel::Text(url),
        XmlModel::End("id"@),
        XmlModel::Start("updated"@, Seq::empty()),
        XmlModel::Text(date),
        XmlModel::End("updated"@),
        XmlModel::Empty("link"@, seq![("href"@, url)]),
    ];
    match e.subtitle {
        Some(sub) => {
            assert(fe =~= common + seq![
                XmlModel::Start("summary"@, Seq::empty()),
                XmlModel::Text(sub@),
                XmlModel::End("summary"@),
                XmlModel::End("entry"@),
            ]);
        },
        None => {
            assert(fe =~= common + seq![XmlModel::End("entry"@)]);
        },
    }
    assert(feed[p] == fe[0]);
    assert(feed[p + 1] == fe[1]);
    assert(feed[p + 2] == fe[2]);
    assert(feed[p + 3] == fe[3]);
    assert(feed[p + 4] == fe[4]);
    assert(feed[p + 5] == fe[5]);
    assert(feed[p + 6] == fe[6]);
    assert(feed[p + 7] == fe[7]);
    assert(feed[p + 8] == fe[8]);
    assert(feed[p + 9] == fe[9]);
    assert(feed[p + 10] == fe[10]);
    assert(feed[p + 11] == fe[11]);
    if e.subtitle is Some {
        assert(feed[p + 12] == fe[12]);
        assert(feed[p + 13] == fe[13]);
        assert(feed[p + 14] == fe[14]);
    }
    assert(shows_entry(feed, p, e));
}

/// The Atom feed of the entries as XML: the feed of `atom_feed_events` for the
/// current time, written by `write_xml`.
pub fn generate_atom_feed(entries: Vec<Atom>) -> (r: Result<Vec<u8>, std::io::Error>)
    requires
        forall|i: int| 0 <= i < entries@.len() ==> (#[trigger] entries@[i]).datetime.valid(),
    ensures
        r is Ok,
        r matches Ok(bytes) ==> exists|now: Timestamp, layout: Seq<Seq<char>>| now.valid()
            && laid_out(atom_feed(entries@, now), layout) && bytes@ == xml_document(atom_feed(entries@, now), layout),
{
    let now = utc_now();
    let events = atom_feed_events(&entries, now);
    write_xml(&events)
}

} // verus!
