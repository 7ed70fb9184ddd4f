use ssgen::collections::StringList;
use ssgen::events::{PageEvent, EventStream, MetadataKind, StartTag, EndTag};
use ssgen::generate::{
    anchors_flag, articles_index_html, contains_text, generate_article_pages, generate_header, is_output_fresh,
    is_stale, join, retained_paths, sort_newest_first, tag_page_html, tag_page_url, tags_index_html, yaml_index,
    ArticleBuild, Metadata,
};
use ssgen::syntex::{process_metadata, YamlValue};
use ssgen::types::Timestamp;

const TEMPLATE: &str = "<title>{{TITLE}}</title><meta content=\"{{DESCRIPTION}}\"><meta content=\"{{TAGS}}\"><link href=\"{{URL}}\">";

fn ts(secs: i64) -> Timestamp {
    Timestamp::new(secs, 0).unwrap()
}

fn front_matter(yaml: &str) -> EventStream<()> {
    EventStream::new(vec![
        PageEvent::Start(StartTag::MetadataBlock(MetadataKind::YamlStyle)),
        PageEvent::Text(yaml.to_string()),
        PageEvent::End(EndTag::MetadataBlock(MetadataKind::YamlStyle)),
        PageEvent::Other(()),
    ])
}

fn metadata(title: &str, subtitle: Option<&str>, tags: Option<Vec<&str>>, date: Option<i64>) -> Metadata {
    Metadata {
        title: title.to_string(),
        subtitle: subtitle.map(str::to_string),
        tags: tags.map(|t| StringList::from_vec(t.into_iter().map(str::to_string).collect())),
        draft: false,
        date: date.map(ts),
    }
}

fn article(title: &str, tags: Option<Vec<&str>>, date: i64, modified: i64, url: &str) -> ArticleBuild {
    ArticleBuild::new(metadata(title, None, tags, Some(date)), url.to_string(), ts(modified))
}

#[test]
fn front_matter_is_read_and_parsed() {
    let mut parser = front_matter(
        "title: Hello\nsubtitle: World\ntags:\n  - rust\n  - math\ndraft: true\ndate: 2024-03-05\nanchors: true\n",
    );
    let doc = process_metadata(&mut parser).unwrap();
    assert!(matches!(parser.next(), Some(PageEvent::Other(()))));
    assert!(anchors_flag(&doc));
    let m = Metadata::parse_metadata(&doc).unwrap();
    assert_eq!(m.title, "Hello");
    assert_eq!(m.subtitle.as_deref(), Some("World"));
    assert_eq!(m.tags.unwrap().to_vec(), vec!["rust".to_string(), "math".to_string()]);
    assert!(m.draft);
    assert_eq!(m.date, Some(ts(1709596800)));
}

#[test]
fn front_matter_defaults_apply() {
    let mut parser = front_matter("title: Only a title\n");
    let doc = process_metadata(&mut parser).unwrap();
    assert!(!anchors_flag(&doc));
    let m = Metadata::parse_metadata(&doc).unwrap();
    assert_eq!(m.title, "Only a title");
    assert!(m.subtitle.is_none());
    assert!(m.tags.is_none());
    assert!(!m.draft);
    assert!(m.date.is_none());
}

#[test]
fn front_matter_without_title_is_refused() {
    let mut parser = front_matter("subtitle: no title\n");
    let doc = process_metadata(&mut parser).unwrap();
    assert!(Metadata::parse_metadata(&doc).is_none());
}

#[test]
fn front_matter_with_a_bad_date_or_mixed_tags_keeps_the_rest() {
    let mut parser = front_matter("title: T\ndate: 5 March\ntags:\n  - a\n  - 3\n");
    let doc = process_metadata(&mut parser).unwrap();
    let m = Metadata::parse_metadata(&doc).unwrap();
    assert!(m.date.is_none());
    assert!(m.tags.is_none());
}

#[test]
fn a_page_without_front_matter_has_no_metadata() {
    let mut parser = EventStream::new(vec![PageEvent::Text("no block".to_string()), PageEvent::Other(())]);
    assert!(process_metadata(&mut parser).is_none());
    assert!(matches!(parser.next(), Some(PageEvent::Other(()))));
}

#[test]
fn yaml_index_gives_bad_value_for_missing_keys() {
    let doc = YamlValue::Hash(vec![(YamlValue::String("k".to_string()), YamlValue::Integer(3))]);
    assert!(matches!(yaml_index(&doc, "k"), YamlValue::Integer(3)));
    assert!(matches!(yaml_index(&doc, "x"), YamlValue::BadValue));
    assert!(matches!(yaml_index(&YamlValue::Null, "k"), YamlValue::BadValue));
}

#[test]
fn header_template_is_filled_in() {
    assert_eq!(
        generate_header(TEMPLATE, "T", "D", "K", "u.html"),
        "<title>T</title><meta content=\"D\"><meta content=\"K\"><link href=\"u.html\">"
    );
}

#[test]
fn article_header_uses_defaults_without_subtitle_or_tags() {
    let m = metadata("Post", None, None, None);
    assert_eq!(
        m.generate_header(TEMPLATE, "post.html"),
        "<title>Post</title><meta content=\"Blogpost\"><meta content=\"blog, blogpost, article\"><link href=\"post.html\">"
    );
}

#[test]
fn article_header_lists_subtitle_and_tags() {
    let m = metadata("Post", Some("Sub"), Some(vec!["rust", "math"]), None);
    assert_eq!(
        m.generate_header(TEMPLATE, "p.html"),
        "<title>Post</title><meta content=\"Sub\"><meta content=\"rust, math\"><link href=\"p.html\">"
    );
}

#[test]
fn join_separates_items() {
    let l = StringList::from_vec(vec!["a".to_string(), "b".to_string(), "c".to_string()]);
    assert_eq!(join(&l, ", "), "a, b, c");
    assert_eq!(join(&StringList::from_vec(vec![]), ", "), "");
}

#[test]
fn label_links_title_and_shows_date() {
    let m = metadata("Hello", Some("World"), None, None);
    assert_eq!(
        m.label("a.html", &ts(1709596800)),
        "<h2 class=\"header-link\"><a href=\"a.html\">Hello</a></h2>World<br><small class=\"article-date\">March 05, 2024</small>"
    );
}

#[test]
fn article_date_falls_back_to_modification_time() {
    let a = ArticleBuild::new(metadata("x", None, None, None), "x.html".to_string(), ts(42));
    assert_eq!(a.datetime, ts(42));
    let b = ArticleBuild::new(metadata("y", None, None, Some(7)), "y.html".to_string(), ts(42));
    assert_eq!(b.datetime, ts(7));
}

#[test]
fn articles_are_sorted_newest_first_keeping_ties_in_order() {
    let sorted = sort_newest_first(vec![
        article("old", None, 100, 1, "old.html"),
        article("tie1", None, 200, 1, "tie1.html"),
        article("new", None, 300, 1, "new.html"),
        article("tie2", None, 200, 1, "tie2.html"),
    ]);
    let titles: Vec<&str> = sorted.iter().map(|a| a.metadata.title.as_str()).collect();
    assert_eq!(titles, vec!["new", "tie1", "tie2", "old"]);
}

#[test]
fn article_pages_give_labels_entries_and_tags() {
    let (labels, entries, groups) = generate_article_pages(vec![
        article("First", Some(vec!["rust", "C++ Tips"]), 1709596800, 500, "first.html"),
        article("Second", Some(vec!["rust"]), 1703980800, 900, "second.html"),
        article("Third", None, 1703980800, 50, "third.html"),
    ]);
    assert_eq!(
        labels[0],
        "<h2 class=\"header-link\"><a href=\"first.html\">First</a></h2><small class=\"article-date\">March 05, 2024</small> \u{b7} <a href=\"rust.html\">rust</a>, <a href=\"c-tips.html\">C++ Tips</a>"
    );
    assert_eq!(
        labels[2],
        "<h2 class=\"header-link\"><a href=\"third.html\">Third</a></h2><small class=\"article-date\">December 31, 2023</small>"
    );
    assert_eq!(entries.len(), 3);
    assert_eq!(entries[1].title, "Second");
    assert_eq!(entries[1].url, "second.html");
    assert_eq!(entries[1].datetime, ts(1703980800));
    assert_eq!(groups.len(), 2);
    assert_eq!(groups[0].tag, "C++ Tips");
    assert_eq!(groups[0].indices.to_vec(), vec![0]);
    assert_eq!(groups[0].modified, ts(500));
    assert_eq!(groups[1].tag, "rust");
    assert_eq!(groups[1].indices.to_vec(), vec![0, 1]);
    assert_eq!(groups[1].modified, ts(900));
}

#[test]
fn every_tagged_article_is_on_its_tag_page() {
    let arts = vec![
        article("A", Some(vec!["x", "y"]), 10, 10, "a.html"),
        article("B", Some(vec!["y"]), 20, 20, "b.html"),
        article("C", Some(vec!["x"]), 30, 30, "c.html"),
    ];
    let (labels, _, groups) = generate_article_pages(arts);
    for g in &groups {
        let page = tag_page_html("{{TITLE}}|", "", g, &labels);
        for i in g.indices.to_vec() {
            assert!(page.contains(&labels[i]));
        }
    }
    assert_eq!(groups[0].indices.to_vec(), vec![0, 2]);
    assert_eq!(groups[1].indices.to_vec(), vec![0, 1]);
}

#[test]
fn articles_index_lists_every_label() {
    let labels = vec!["L1".to_string(), "L2".to_string()];
    assert_eq!(
        articles_index_html("{{TITLE}}|{{DESCRIPTION}}|{{TAGS}}|{{URL}}\n", "<footer>", &labels),
        "Articles|List of all articles|blog, blogpost, articles|articles.html\n<h1>Articles</h1><hr><ul>\n<li>L1</li>\n<li>L2</li>\n</ul>\n<footer>"
    );
}

#[test]
fn tags_index_links_every_tag() {
    let (_, _, groups) = generate_article_pages(vec![article("A", Some(vec!["Big <Tag>", "b"]), 10, 10, "a.html")]);
    assert_eq!(
        tags_index_html("{{TITLE}}\n", "", &groups),
        "Tags\n<h1>Tags</h1><hr><ul>\n<li><a href=\"big-tag.html\">Big &lt;Tag&gt;</a></li>\n<li><a href=\"b.html\">b</a></li>\n</ul>\n"
    );
}

#[test]
fn tag_page_lists_the_tagged_articles() {
    let (labels, _, groups) = generate_article_pages(vec![
        article("A", Some(vec!["R&D"]), 10, 10, "a.html"),
        article("B", None, 10, 10, "b.html"),
    ]);
    assert_eq!(tag_page_url("R&D"), "r-d.html");
    assert_eq!(
        tag_page_html("{{TITLE}}|{{DESCRIPTION}}|{{TAGS}}|{{URL}}\n", "<end>", &groups[0], &labels),
        format!(
            "R&amp;D|Articles tagged R&amp;D|blog, blogpost, R&amp;D|r-d.html\n<h1>R&amp;D</h1><hr><ul>\n<li>{}</li>\n</ul>\n<end>",
            labels[0]
        )
    );
}

#[test]
fn output_is_fresh_only_when_newer_than_its_source() {
    assert!(is_output_fresh(Some(ts(20)), ts(10)));
    assert!(!is_output_fresh(Some(ts(10)), ts(10)));
    assert!(!is_output_fresh(Some(ts(5)), ts(10)));
    assert!(!is_output_fresh(None, ts(10)));
}

#[test]
fn retained_paths_hold_pages_feeds_statics_sources_and_tags() {
    let sources = vec!["post.html".to_string(), "img".to_string()];
    let tags = vec!["rust.html".to_string()];
    let kept = retained_paths(&sources, &tags);
    assert_eq!(kept.len(), 3 + 2 + 9 + 2 + 1);
    for p in ["index.html", "atom.xml", "styles.css", "post.html", "img", "rust.html", "03_gemv.html"] {
        assert!(contains_text(&kept, p), "{p}");
        assert!(!is_stale(p, &kept));
    }
    assert!(is_stale("old.html", &kept));
    assert!(!is_stale("", &kept));
}

#[test]
fn metadata_copies_keep_their_tags() {
    let m = metadata("T", None, Some(vec!["a", "b"]), Some(5));
    let copy = m.clone();
    assert_eq!(copy.tags.unwrap().to_vec(), vec!["a".to_string(), "b".to_string()]);
    assert_eq!(copy.date, Some(ts(5)));
}
