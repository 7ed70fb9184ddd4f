use ssgen::events::{EndTag, HeadingRank, PageEvent, StartTag};
use ssgen::markdown::{merge_text, read_index_page, read_page};

fn text(s: &str) -> PageEvent<()> {
    PageEvent::Text(s.to_string())
}

#[test]
fn runs_of_text_are_joined() {
    let merged = merge_text(vec![text("a"), text("b"), PageEvent::Other(()), text(""), text(""), text("c"), PageEvent::Other(()), text("")]);
    assert_eq!(merged.len(), 5);
    assert!(matches!(&merged[0], PageEvent::Text(s) if s == "ab"));
    assert!(matches!(&merged[1], PageEvent::Other(())));
    assert!(matches!(&merged[2], PageEvent::Text(s) if s == "c"));
    assert!(matches!(&merged[3], PageEvent::Other(())));
    assert!(matches!(&merged[4], PageEvent::Text(s) if s.is_empty()));
}

#[test]
fn an_empty_run_of_text_is_dropped() {
    assert!(merge_text(vec![text(""), text("")]).is_empty());
}

#[test]
fn a_page_is_read_with_its_front_matter() {
    let page = "---\ntitle: Hello\nanchors: true\ntags:\n  - rust\n---\n\n# Intro\n\nSome *text* and `code`.\n";
    let (metadata, anchors, stream) = read_page(page).unwrap();
    assert_eq!(metadata.title, "Hello");
    assert!(anchors);
    let events = stream.into_events();
    assert!(matches!(&events[0], PageEvent::Start(StartTag::Heading { level: HeadingRank::H1, id: None, .. })));
    assert!(matches!(&events[1], PageEvent::Text(s) if s == "Intro"));
    assert!(matches!(&events[2], PageEvent::End(EndTag::Heading(HeadingRank::H1))));
    assert!(events.iter().any(|e| matches!(e, PageEvent::Code(s) if s == "code")));
}

#[test]
fn a_page_without_a_title_is_refused() {
    assert!(read_page("---\nsubtitle: none\n---\ntext\n").is_none());
    assert!(read_page("no front matter\n").is_none());
}

#[test]
fn the_index_page_keeps_its_events() {
    let (metadata, stream) = read_index_page("---\ntitle: Home\n---\nWelcome\n").unwrap();
    assert_eq!(metadata.title, "Home");
    assert!(stream.into_events().iter().any(|e| matches!(e, PageEvent::Text(s) if s == "Welcome")));
}

#[test]
fn toc_markers_are_html_events() {
    let (_, _, stream) = read_page("---\ntitle: T\n---\n<!--toc:start-->\n\ntext\n").unwrap();
    assert!(stream.into_events().iter().any(|e| matches!(e, PageEvent::Html(s) if s == "<!--toc:start-->\n")));
}
