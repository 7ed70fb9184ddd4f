use vstd::prelude::*;
use crate::atom::{site_address, site_url};
use crate::types::{rfc3339_text, to_rfc3339, Entries};
use crate::xml::{
    laid_out, one_attr, push_end, push_event, push_start, push_text_element, text_element, write_xml, xml_document, xml_view, XmlEvent,
    XmlModel,
};

verus! {

/// The `url` element of one page: its address, its last modification and its priority.
pub open spec fn url_element(address: Seq<char>, lastmod: Seq<char>, priority: Seq<char>) -> Seq<XmlModel> {
    seq![XmlModel::Start("url"@, Seq::empty())]
        + text_element("loc"@, address)
        + text_element("lastmod"@, lastmod)
        + text_element("priority"@, priority)
        + seq![XmlModel::End("url"@)]
}

/// The date the index pages are listed with.
pub open spec fn index_lastmod() -> Seq<char> {
    "2025-10-13T00:00:00Z"@
}

/// The `url` elements of the index pages: the home page, the list of articles
/// and the list of tags, by decreasing priority.
pub open spec fn index_urls() -> Seq<XmlModel> {
    url_element(site_url("index.html"@), index_lastmod(), "1.0"@)
        + url_element(site_url("articles.html"@), index_lastmod(), "0.9"@)
        + url_element(site_url("tags.html"@), index_lastmod(), "0.8"@)
}

/// The `url` elements of the articles, in order.
pub open spec fn article_urls(es: Seq<Entries>) -> Seq<XmlModel>
    decreases es.len(),
{
    if es.len() == 0 {
        Seq::empty()
    } else {
        article_urls(es.drop_last()) + url_element(
            site_url(es.last().url@),
            rfc3339_text(es.last().datetime.secs, es.last().datetime.nanos),
            "0.8"@,
        )
    }
}

/// The events of the sitemap: the index pages, then every article.
pub open spec fn sitemap(es: Seq<Entries>) -> Seq<XmlModel> {
    seq![XmlModel::Decl, XmlModel::Start("urlset"@, seq![("xmlns"@, "http://www.sitemaps.org/schemas/sitemap/0.9"@)])]
        + index_urls() + article_urls(es) + seq![XmlModel::End("urlset"@)]
}

proof fn lemma_article_urls(es: Seq<Entries>)
    ensures
        article_urls(es).len() == 11 * es.len(),
        forall|k: int, j: int| 0 <= k < es.len() && 0 <= j < 11 ==> #[trigger] article_urls(es)[11 * k + j]
            == url_element(site_url(es[k].url@), rfc3339_text(es[k].datetime.secs, es[k].datetime.nanos), "0.8"@)[j],
    decreases es.len(),
{
    if es.len() > 0 {
        let pre = es.drop_last();
        lemma_article_urls(pre);
        let last = url_element(site_url(es.last().url@), rfc3339_text(es.last().datetime.secs, es.last().datetime.nanos), "0.8"@);
        assert(last.len() == 11);
        assert forall|k: int, j: int| 0 <= k < es.len() && 0 <= j < 11 implies #[trigger] article_urls(es)[11 * k + j]
            == url_element(site_url(es[k].url@), rfc3339_text(es[k].datetime.secs, es[k].datetime.nanos), "0.8"@)[j] by {
            if k < es.len() - 1 {
                assert(pre[k] == es[k]);
                assert(article_urls(es)[11 * k + j] == article_urls(pre)[11 * k + j]);
            } else {
                assert(article_urls(es)[11 * k + j] == last[j]);
            }
        }
    }
}

/// The sitemap lists, after the index pages, each entry in order: a `url`
/// element whose address is the entry's address on the site, whose last
/// modification is that same entry's date (RFC 3339) and whose priority is 0.8.
pub proof fn law_sitemap_lists_each_entry_with_its_date(es: Seq<Entries>)
    ensures
        sitemap(es).len() == 36 + 11 * es.len(),
        forall|k: int| #![trigger es[k]] 0 <= k < es.len() ==> {
            &&& sitemap(es)[35 + 11 * k] == XmlModel::Start("url"@, Seq::empty())
            &&& sitemap(es)[35 + 11 * k + 1] == XmlModel::Start("loc"@, Seq::empty())
            &&& sitemap(es)[35 + 11 * k + 2] == XmlModel::Text("https://shettysach.github.io/"@ + es[k].url@)
            &&& sitemap(es)[35 + 11 * k + 4] == XmlModel::Start("lastmod"@, Seq::empty())
            &&& sitemap(es)[35 + 11 * k + 5] == XmlModel::Text(rfc3339_text(es[k].datetime.secs, es[k].datetime.nanos))
            &&& sitemap(es)[35 + 11 * k + 8] == XmlModel::Text("0.8"@)
            &&& sitemap(es)[35 + 11 * k + 10] == XmlModel::End("url"@)
        },
{
    lemma_article_urls(es);
    let head = seq![XmlModel::Decl, XmlModel::Start("urlset"@, seq![("xmlns"@, "http://www.sitemaps.org/schemas/sitemap/0.9"@)])]
        + index_urls();
    assert(index_urls().len() == 33);
    assert(sitemap(es) == head + article_urls(es) + seq![XmlModel::End("urlset"@)]);
    assert forall|k: int| #![trigger es[k]] 0 <= k < es.len() implies {
        &&& sitemap(es)[35 + 11 * k] == XmlModel::Start("url"@, Seq::empty())
        &&& sitemap(es)[35 + 11 * k + 1] == XmlModel::Start("loc"@, Seq::empty())
        &&& sitemap(es)[35 + 11 * k + 2] == XmlModel::Text("https://shettysach.github.io/"@ + es[k].url@)
        &&& sitemap(es)[35 + 11 * k + 4] == XmlModel::Start("lastmod"@, Seq::empty())
        &&& sitemap(es)[35 + 11 * k + 5] == XmlModel::Text(rfc3339_text(es[k].datetime.secs, es[k].datetime.nanos))
        &&& sitemap(es)[35 + 11 * k + 8] == XmlModel::Text("0.8"@)
        &&& sitemap(es)[35 + 11 * k + 10] == XmlModel::End("url"@)
    } by {
        let u = url_element(site_url(es[k].url@), rfc3339_text(es[k].datetime.secs, es[k].datetime.nanos), "0.8"@);
        assert forall|j: int| 0 <= j < 11 implies sitemap(es)[35 + 11 * k + j] == #[trigger] u[j] by {
            assert(sitemap(es)[35 + 11 * k + j] == article_urls(es)[11 * k + j]);
        }
        assert(u[0] == sitemap(es)[35 + 11 * k]);
        assert(u[1] == sitemap(es)[35 + 11 * k + 1]);
        assert(u[2] == sitemap(es)[35 + 11 * k + 2]);
        assert(u[4] == sitemap(es)[35 + 11 * k + 4]);
        assert(u[5] == sitemap(es)[35 + 11 * k + 5]);
        assert(u[8] == sitemap(es)[35 + 11 * k + 8]);
        assert(u[10] == sitemap(es)[35 + 11 * k + 10]);
    }
}

/// Appends the `url` element of one page.
fn push_url(events: &mut Vec<XmlEvent>, address: &str, lastmod: &str, priority: &str)
    ensures
        xml_view(final(events)@) == xml_view(old(events)@) + url_element(address@, lastmod@, priority@),
{
    let ghost before = xml_view(events@);
    push_start(events, "url");
    push_text_element(events, "loc", address);
    push_text_element(events, "lastmod", lastmod);
    push_text_element(events, "priority", priority);
    push_end(events, "url");
    proof {
        assert(xml_view(events@) =~= before + url_element(address@, lastmod@, priority@));
    }
}

/// The events of the sitemap of the entries.
pub fn sitemap_events(entries: &Vec<Entries>) -> (r: Vec<XmlEvent>)
    requires
        forall|i: int| 0 <= i < entries@.len() ==> (#[trigger] entries@[i]).datetime.valid(),
    ensures
        xml_view(r@) == sitemap(entries@),
{
    let mut events: Vec<XmlEvent> = Vec::new();
    push_event(&mut events, XmlEvent::Decl);
    push_event(
        &mut events,
        XmlEvent::Start("urlset".to_owned(), one_attr("xmlns", "http://www.sitemaps.org/schemas/sitemap/0.9")),
    );
    push_url(&mut events, site_address("index.html").as_str(), "2025-10-13T00:00:00Z", "1.0");
    push_url(&mut events, site_address("articles.html").as_str(), "2025-10-13T00:00:00Z", "0.9");
    push_url(&mut events, site_address("tags.html").as_str(), "2025-10-13T00:00:00Z", "0.8");
    let ghost head = xml_view(events@);
    let mut i: usize = 0;
    proof {
        assert(entries@.take(0) =~= Seq::<Entries>::empty());
        assert(head + Seq::<XmlModel>::empty() =~= head);
    }
    while i < entries.len()
        invariant
            i <= entries@.len(),
            forall|j: int| 0 <= j < entries@.len() ==> (#[trigger] entries@[j]).datetime.valid(),
            xml_view(events@) == head + article_urls(entries@.take(i as int)),
        decreases entries@.len() - i,
    {
        let entry = &entries[i];
        push_url(&mut events, site_address(entry.url.as_str()).as_str(), to_rfc3339(&entry.datetime).as_str(), "0.8");
        proof {
            assert(entries@.take(i + 1).drop_last() =~= entries@.take(i as int));
            assert(entries@.take(i + 1).last() == entries@[i as int]);
        }
        i = i + 1;
    }
    proof {
        assert(entries@.take(entries@.len() as int) =~= entries@);
    }
    push_end(&mut events, "urlset");
    proof {
        assert(xml_view(events@) =~= sitemap(entries@));
    }
    events
}

/// The sitemap of the entries as XML: the events of `sitemap_events`, written by
/// `write_xml`.
pub fn generate_sitemap(entries: &Vec<Entries>) -> (r: Result<Vec<u8>, std::io::Error>)
    requires
        forall|i: int| 0 <= i < entries@.len() ==> (#[trigger] entries@[i]).datetime.valid(),
    ensures
        r is Ok,
        r matches Ok(bytes) ==> exists|layout: Seq<Seq<char>>| laid_out(sitemap(entries@), layout)
            && bytes@ == xml_document(sitemap(entries@), layout),
{
    let events = sitemap_events(entries);
    write_xml(&events)
}

} // verus!
