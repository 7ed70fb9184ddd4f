use ssgen::atom::{atom_feed_events, generate_atom_feed, site_address, Atom};
use ssgen::sitemap::{generate_sitemap, sitemap_events};
use ssgen::types::{Entries, Timestamp};
use ssgen::xml::{one_attr, write_xml, XmlEvent};

fn ts(secs: i64) -> Timestamp {
    Timestamp::new(secs, 0).unwrap()
}

fn entry(title: &str, subtitle: Option<&str>, secs: i64, url: &str) -> Atom {
    Atom { title: title.to_string(), subtitle: subtitle.map(str::to_string), datetime: ts(secs), url: url.to_string() }
}

fn text_of(e: &XmlEvent) -> Option<&str> {
    match e {
        XmlEvent::Text(s) => Some(s.as_str()),
        _ => None,
    }
}

#[test]
fn site_addresses_are_absolute() {
    assert_eq!(site_address("a/b.html"), "https://shettysach.github.io/a/b.html");
}

#[test]
fn xml_is_written_indented_and_escaped() {
    let events = vec![
        XmlEvent::Decl,
        XmlEvent::Start("a".to_string(), vec![]),
        XmlEvent::Start("b".to_string(), vec![]),
        XmlEvent::Text("x < y & 'z'".to_string()),
        XmlEvent::End("b".to_string()),
        XmlEvent::Empty("c".to_string(), one_attr("k", "v")),
        XmlEvent::End("a".to_string()),
    ];
    let bytes = write_xml(&events).unwrap();
    assert_eq!(
        String::from_utf8(bytes).unwrap(),
        "<?xml version=\"1.0\" encoding=\"UTF-8\"?>\n<a>\n  <b>x &lt; y &amp; &apos;z&apos;</b>\n  <c k=\"v\"/>\n</a>"
    );
}

#[test]
fn atom_feed_is_updated_at_the_latest_entry() {
    let entries = vec![
        entry("Old", None, 1703980800, "old.html"),
        entry("New", Some("Fresh"), 1709596800, "new.html"),
    ];
    let events = atom_feed_events(&entries, ts(1));
    let texts: Vec<&str> = events.iter().filter_map(text_of).collect();
    assert_eq!(
        texts,
        vec![
            "Sachith Shetty",
            "shettysachith47@gmail.com",
            "Sachith's Blog",
            "https://shettysach.github.io/",
            "2024-03-05T00:00:00+00:00",
            "Old",
            "https://shettysach.github.io/old.html",
            "2023-12-31T00:00:00+00:00",
            "New",
            "https://shettysach.github.io/new.html",
            "2024-03-05T00:00:00+00:00",
            "Fresh",
        ]
    );
    assert!(matches!(events.first(), Some(XmlEvent::Decl)));
    assert!(matches!(events.last(), Some(XmlEvent::End(s)) if s == "feed"));
}

#[test]
fn empty_atom_feed_is_updated_now() {
    let events = atom_feed_events(&vec![], ts(1709596800));
    let texts: Vec<&str> = events.iter().filter_map(text_of).collect();
    assert_eq!(texts.last(), Some(&"2024-03-05T00:00:00+00:00"));
    assert_eq!(texts.len(), 5);
}

#[test]
fn atom_feed_document_lists_entries() {
    let bytes = generate_atom_feed(vec![entry("Post", Some("Sub"), 1709596800, "post.html")]).unwrap();
    let xml = String::from_utf8(bytes).unwrap();
    assert!(xml.starts_with("<?xml version=\"1.0\" encoding=\"UTF-8\"?>\n<feed xmlns=\"http://www.w3.org/2005/Atom\">"));
    assert!(xml.contains("<title>Sachith&apos;s Blog</title>"));
    assert!(xml.contains("<link href=\"https://shettysach.github.io/atom.xml\" rel=\"self\"/>"));
    assert!(xml.contains(
        "  <entry>\n    <title>Post</title>\n    <id>https://shettysach.github.io/post.html</id>\n    <updated>2024-03-05T00:00:00+00:00</updated>\n    <link href=\"https://shettysach.github.io/post.html\"/>\n    <summary>Sub</summary>\n  </entry>\n</feed>"
    ));
}

#[test]
fn sitemap_lists_index_pages_then_articles() {
    let entries: Vec<Entries> = vec![entry("Post", None, 1709596800, "post.html")];
    let events = sitemap_events(&entries);
    let texts: Vec<&str> = events.iter().filter_map(text_of).collect();
    assert_eq!(
        texts,
        vec![
            "https://shettysach.github.io/index.html",
            "2025-10-13T00:00:00Z",
            "1.0",
            "https://shettysach.github.io/articles.html",
            "2025-10-13T00:00:00Z",
            "0.9",
            "https://shettysach.github.io/tags.html",
            "2025-10-13T00:00:00Z",
            "0.8",
            "https://shettysach.github.io/post.html",
            "2024-03-05T00:00:00+00:00",
            "0.8",
        ]
    );
}

#[test]
fn sitemap_document_is_indented() {
    let bytes = generate_sitemap(&vec![entry("Post", None, 1709596800, "post.html")]).unwrap();
    let xml = String::from_utf8(bytes).unwrap();
    assert!(xml.starts_with(
        "<?xml version=\"1.0\" encoding=\"UTF-8\"?>\n<urlset xmlns=\"http://www.sitemaps.org/schemas/sitemap/0.9\">\n  <url>\n    <loc>https://shettysach.github.io/index.html</loc>\n    <lastmod>2025-10-13T00:00:00Z</lastmod>\n    <priority>1.0</priority>\n  </url>"
    ));
    assert!(xml.ends_with(
        "  <url>\n    <loc>https://shettysach.github.io/post.html</loc>\n    <lastmod>2024-03-05T00:00:00+00:00</lastmod>\n    <priority>0.8</priority>\n  </url>\n</urlset>"
    ));
}
