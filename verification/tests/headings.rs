use ssgen::anchor::{slugify as events_slugify, AnchorIterator};
use ssgen::anchored::{slugify_h, AnchoredIterator};
use ssgen::events::{CodeKind, PageEvent, EventStream, HeadingRank, StartTag, EndTag};
use ssgen::syntex::CustomIterator;
use ssgen::toc::{Levels, Slugger, TocIterator};

fn heading(level: HeadingRank, id: Option<&str>) -> PageEvent<()> {
    PageEvent::Start(StartTag::Heading { level, id: id.map(str::to_string), classes: Vec::new(), attrs: Vec::new() })
}

fn text(s: &str) -> PageEvent<()> {
    PageEvent::Text(s.to_string())
}

fn is_html(e: &Option<PageEvent<()>>, expected: &str) -> bool {
    matches!(e, Some(PageEvent::Html(s)) if s == expected)
}

fn is_inline_html(e: &Option<PageEvent<()>>, expected: &str) -> bool {
    matches!(e, Some(PageEvent::InlineHtml(s)) if s == expected)
}

fn is_text(e: &Option<PageEvent<()>>, expected: &str) -> bool {
    matches!(e, Some(PageEvent::Text(s)) if s == expected)
}

#[test]
fn levels_accept_ordered_levels_from_one_to_six() {
    let l = Levels::new(2, 4).unwrap();
    assert_eq!(l.min_level(), 2);
    assert_eq!(l.max_level(), 4);
    let one = Levels::new(3, 3).unwrap();
    assert_eq!((one.min_level(), one.max_level()), (3, 3));
}

#[test]
fn levels_refuse_other_ranges() {
    assert!(Levels::new(0, 3).is_none());
    assert!(Levels::new(4, 2).is_none());
    assert!(Levels::new(1, 7).is_none());
    assert!(Levels::new(7, 7).is_none());
}

#[test]
fn levels_enable_the_levels_in_range() {
    let l = Levels::new(2, 3).unwrap();
    assert!(!l.level_enabled(HeadingRank::H1));
    assert!(l.level_enabled(HeadingRank::H2));
    assert!(l.level_enabled(HeadingRank::H3));
    assert!(!l.level_enabled(HeadingRank::H4));
    assert_eq!(Levels::level_to_u8(HeadingRank::H6), 6);
}

#[test]
fn slugger_numbers_repeated_headings() {
    let mut s: Slugger<32> = Slugger::new();
    assert_eq!(s.slug("Hello World"), "hello-world");
    assert_eq!(s.slug("Hello World"), "hello-world_1");
    assert_eq!(s.slug("Hello, World!"), "hello-world_2");
}

#[test]
fn slugger_keeps_a_trailing_dash_and_drops_punctuation() {
    let mut s: Slugger<32> = Slugger::default();
    assert_eq!(s.slug("Trailing "), "trailing-");
    assert_eq!(s.slug("a+b = c"), "ab-c");
    assert_eq!(s.buckets(), 32);
}

#[test]
fn slugger_repeated_slugs_differ() {
    let mut s: Slugger<8> = Slugger::new();
    let mut seen = Vec::new();
    for _ in 0..20 {
        let slug = s.slug("Same");
        assert!(!seen.contains(&slug));
        seen.push(slug);
    }
}

#[test]
fn toc_lists_headings_with_their_anchors() {
    let events = vec![
        heading(HeadingRank::H1, None),
        text("Intro"),
        PageEvent::End(EndTag::Heading(HeadingRank::H1)),
        PageEvent::Other(()),
        heading(HeadingRank::H2, None),
        text("Details"),
        PageEvent::End(EndTag::Heading(HeadingRank::H2)),
    ];
    let mut it = TocIterator::new(EventStream::new(events), Levels::new(1, 3).unwrap());
    let first = it.next();
    assert!(matches!(&first, Some(PageEvent::Start(StartTag::Heading { level: HeadingRank::H1, id: Some(id), .. })) if id == "intro"));
    assert!(is_text(&it.next(), "Intro"));
    assert!(matches!(it.next(), Some(PageEvent::End(EndTag::Heading(HeadingRank::H1)))));
    assert!(matches!(it.next(), Some(PageEvent::Other(()))));
    let second = it.next();
    assert!(matches!(&second, Some(PageEvent::Start(StartTag::Heading { level: HeadingRank::H2, id: Some(id), .. })) if id == "details"));
    assert!(is_text(&it.next(), "Details"));
    assert!(matches!(it.next(), Some(PageEvent::End(EndTag::Heading(HeadingRank::H2)))));
    assert!(it.next().is_none());
    assert_eq!(
        it.toc(),
        "<ul><li><a href=\"#intro\">Intro</a></li><ul><li><a href=\"#details\">Details</a></ul></li></li></ul>"
    );
}

#[test]
fn toc_keeps_explicit_ids_and_skips_levels_out_of_range() {
    let events = vec![
        heading(HeadingRank::H2, Some("custom")),
        text("Named"),
        PageEvent::End(EndTag::Heading(HeadingRank::H2)),
        heading(HeadingRank::H5, None),
        text("Deep"),
        PageEvent::End(EndTag::Heading(HeadingRank::H5)),
    ];
    let mut it = TocIterator::new(EventStream::new(events), Levels::new(1, 3).unwrap());
    let mut n = 0;
    while let Some(e) = it.next() {
        if n == 3 {
            assert!(matches!(e, PageEvent::Start(StartTag::Heading { level: HeadingRank::H5, id: None, .. })));
        }
        n += 1;
    }
    assert_eq!(n, 6);
    assert_eq!(it.toc(), "<ul><ul><li><a href=\"#custom\">Named</a></ul></li></li></ul>");
}

#[test]
fn toc_of_a_page_without_headings_is_empty() {
    let mut it = TocIterator::new(EventStream::new(vec![text("plain")]), Levels::new(1, 6).unwrap());
    assert!(is_text(&it.next(), "plain"));
    assert!(it.next().is_none());
    assert_eq!(it.toc(), "");
}

#[test]
fn toc_iterator_renders_code_and_math() {
    let events = vec![
        PageEvent::Start(StartTag::CodeBlock(CodeKind::Fenced("rust".to_string()))),
        text("fn main() {}"),
        PageEvent::End(EndTag::CodeBlock),
        PageEvent::InlineMath("x^2".to_string()),
    ];
    let mut it = TocIterator::new(EventStream::new(events), Levels::new(1, 6).unwrap());
    assert!(matches!(it.next(), Some(PageEvent::Start(StartTag::CodeBlock(CodeKind::Indented)))));
    assert!(matches!(it.next(), Some(PageEvent::Html(s)) if s.contains("main")));
    assert!(matches!(it.next(), Some(PageEvent::End(EndTag::CodeBlock))));
    assert!(matches!(it.next(), Some(PageEvent::InlineHtml(s)) if s.starts_with("<math")));
    assert!(it.next().is_none());
}

#[test]
fn anchor_iterator_wraps_headings_in_links() {
    let events = vec![heading(HeadingRank::H2, None), text("Hello World"), PageEvent::End(EndTag::Heading(HeadingRank::H2))];
    let mut it = AnchorIterator::new(EventStream::new(events));
    assert!(is_html(&it.next(), "<h2 id=\"hello-world\"><a href=\"#hello-world\">"));
    assert!(is_text(&it.next(), "Hello World"));
    assert!(is_html(&it.next(), "</a></h2>"));
    assert!(it.next().is_none());
}

#[test]
fn anchor_iterator_keeps_an_explicit_id() {
    let events = vec![heading(HeadingRank::H3, Some("here")), text("Title"), PageEvent::End(EndTag::Heading(HeadingRank::H3))];
    let mut it = AnchorIterator::new(EventStream::new(events));
    assert!(is_html(&it.next(), "<h3 id=\"here\"><a href=\"#here\">"));
    assert!(is_text(&it.next(), "Title"));
    assert!(is_html(&it.next(), "</a></h3>"));
}

#[test]
fn anchor_iterator_replaces_toc_markers() {
    let events = vec![
        PageEvent::Html("<!--toc:start-->\n".to_string()),
        PageEvent::Html("<p>kept</p>".to_string()),
        PageEvent::Html("<!--toc:end-->\n".to_string()),
    ];
    let mut it = AnchorIterator::new(EventStream::new(events));
    assert!(is_html(&it.next(), "<details><summary>Contents</summary>"));
    assert!(is_html(&it.next(), "<p>kept</p>"));
    assert!(is_html(&it.next(), "</details>"));
}

#[test]
fn anchor_iterator_leaves_footnotes_alone() {
    let events: Vec<PageEvent<()>> = vec![PageEvent::FootnoteReference("1".to_string())];
    let mut it = AnchorIterator::new(EventStream::new(events));
    assert!(matches!(it.next(), Some(PageEvent::FootnoteReference(s)) if s == "1"));
}

#[test]
fn anchor_iterator_renders_math_inside_headings() {
    let events = vec![
        heading(HeadingRank::H2, None),
        text("Sum "),
        PageEvent::InlineMath("a+b".to_string()),
        PageEvent::End(EndTag::Heading(HeadingRank::H2)),
    ];
    let mut it = AnchorIterator::new(EventStream::new(events));
    assert!(is_html(&it.next(), "<h2 id=\"sum-ab\"><a href=\"#sum-ab\">"));
    assert!(is_text(&it.next(), "Sum "));
    assert!(matches!(it.next(), Some(PageEvent::InlineHtml(s)) if s.starts_with("<math")));
    assert!(is_html(&it.next(), "</a></h2>"));
}

#[test]
fn anchored_iterator_links_footnotes_both_ways() {
    let events = vec![
        PageEvent::FootnoteReference("1".to_string()),
        PageEvent::Start(StartTag::FootnoteDefinition("1".to_string())),
        text("Note."),
        PageEvent::End(EndTag::FootnoteDefinition),
    ];
    let mut it = AnchoredIterator::new(EventStream::new(events));
    assert!(is_inline_html(
        &it.next().unwrap(),
        "<sup class=\"footnote-reference\" id=\"fr-1\"><a href=\"#1\">1</a></sup>"
    ));
    assert!(matches!(it.next().unwrap(), Some(PageEvent::Start(StartTag::FootnoteDefinition(s))) if s == "1"));
    assert!(is_text(&it.next().unwrap(), "Note."));
    assert!(is_html(&it.next().unwrap(), " <a href=\"#fr-1\">\u{21a9}</a></div>\n"));
    assert!(matches!(it.next(), Ok(None)));
}

#[test]
fn anchored_iterator_replaces_toc_markers_with_a_toc_box() {
    let events: Vec<PageEvent<()>> = vec![PageEvent::Html("<!--toc:start-->\n".to_string()), PageEvent::Html("<!--toc:end-->\n".to_string())];
    let mut it = AnchoredIterator::new(EventStream::new(events));
    assert!(is_html(&it.next().unwrap(), "<details class=\"toc\"><summary>Contents</summary>"));
    assert!(is_html(&it.next().unwrap(), "</details>"));
}

#[test]
fn anchored_iterator_wraps_headings_in_links() {
    let events = vec![heading(HeadingRank::H1, None), text("Top"), PageEvent::End(EndTag::Heading(HeadingRank::H1))];
    let mut it = AnchoredIterator::new(EventStream::new(events));
    assert!(is_html(&it.next().unwrap(), "<h1 id=\"top\"><a href=\"#top\">"));
    assert!(is_text(&it.next().unwrap(), "Top"));
    assert!(is_html(&it.next().unwrap(), "</a></h1>"));
}

#[test]
fn heading_slugs_join_words_and_hyphens() {
    assert_eq!(events_slugify(&vec![text("Hello - World")]), "hello-world");
    assert_eq!(slugify_h(&vec![text("Use "), PageEvent::Code("Vec<T>".to_string())]), "use-vect");
    assert_eq!(slugify_h::<()>(&vec![PageEvent::Other(()), text("  x-y  ")]), "x-y-");
}

#[test]
fn custom_iterator_highlights_code_and_renders_math() {
    let events = vec![
        PageEvent::Start(StartTag::CodeBlock(CodeKind::Fenced("python".to_string()))),
        text("print(1)"),
        PageEvent::End(EndTag::CodeBlock),
        PageEvent::DisplayMath("\\frac{1}{2}".to_string()),
        PageEvent::Other(()),
    ];
    let mut it = CustomIterator::new(EventStream::new(events));
    assert!(matches!(it.next(), Some(PageEvent::Html(s)) if s.contains("print")));
    assert!(matches!(it.next(), Some(PageEvent::Html(s)) if s.starts_with("<math") && s.contains("block")));
    assert!(matches!(it.next(), Some(PageEvent::Other(()))));
    assert!(it.next().is_none());
}

#[test]
fn custom_iterator_passes_unfenced_code_through() {
    let events = vec![
        PageEvent::Start(StartTag::CodeBlock(CodeKind::Indented)),
        text("plain"),
        PageEvent::End(EndTag::CodeBlock),
    ];
    let mut it = CustomIterator::new(EventStream::new(events));
    assert!(matches!(it.next(), Some(PageEvent::Start(StartTag::CodeBlock(CodeKind::Indented)))));
    assert!(is_text(&it.next(), "plain"));
    assert!(matches!(it.next(), Some(PageEvent::End(EndTag::CodeBlock))));
}

#[test]
fn event_stream_gives_back_unread_events_in_order() {
    let mut stream = EventStream::new(vec![text("a"), text("b"), text("c")]);
    assert!(is_text(&stream.next(), "a"));
    let rest = stream.into_events();
    assert_eq!(rest.len(), 2);
    assert!(matches!(&rest[0], PageEvent::Text(s) if s == "b"));
    assert!(matches!(&rest[1], PageEvent::Text(s) if s == "c"));
}

#[test]
fn toc_closes_every_list_it_opens() {
    let mut events = Vec::new();
    for (level, title) in [
        (HeadingRank::H3, "Deep start"),
        (HeadingRank::H1, "Top"),
        (HeadingRank::H2, "Middle"),
        (HeadingRank::H4, "Deeper"),
        (HeadingRank::H2, "Back"),
    ] {
        events.push(heading(level, None));
        events.push(text(title));
        events.push(PageEvent::End(EndTag::Heading(level)));
    }
    let mut it = TocIterator::new(EventStream::new(events), Levels::new(1, 6).unwrap());
    while it.next().is_some() {}
    let toc = it.toc();
    assert_eq!(toc.matches("<ul>").count(), toc.matches("</ul>").count());
    assert!(toc.contains("<a href=\"#deep-start\">Deep start</a>"));
    assert!(toc.contains("<a href=\"#back\">Back</a>"));
}

#[test]
fn highlighted_code_is_a_lumis_block_in_its_language() {
    let html = ssgen::syntex::highlight_code("fn main() {}", "rs").unwrap();
    assert!(html.starts_with("<pre class=\"lumis\"><code class=\"language-rust\" translate=\"no\" tabindex=\"0\">"), "{html}");
    assert!(html.ends_with("</code></pre>"));
    let plain = ssgen::syntex::highlight_code("x", "unknown").unwrap();
    assert!(plain.contains("<code class=\"language-plaintext\" translate=\"no\" tabindex=\"0\">"), "{plain}");
    assert!(plain.ends_with("</code></pre>"));
}

fn visible_text(html: &str) -> String {
    let mut out = String::new();
    let mut in_tag = false;
    let mut rest = html;
    while let Some(c) = rest.chars().next() {
        if in_tag {
            in_tag = c != '>';
            rest = &rest[c.len_utf8()..];
        } else if c == '<' {
            in_tag = true;
            rest = &rest[1..];
        } else if let Some((entity, ch)) =
            [("&amp;", '&'), ("&lt;", '<'), ("&gt;", '>'), ("&quot;", '"'), ("&#39;", '\'')].into_iter().find(|(e, _)| rest.starts_with(e))
        {
            out.push(ch);
            rest = &rest[entity.len()..];
        } else {
            out.push(c);
            rest = &rest[c.len_utf8()..];
        }
    }
    out
}

#[test]
fn highlighted_code_shows_the_code() {
    let code = "fn main() {\n    let x = 1 < 2 && \"a\" != 'b';\n}\n";
    let html = ssgen::syntex::highlight_code(code, "rust").unwrap();
    assert_eq!(visible_text(&html), "fn main() {\n    let x = 1 < 2 && \"a\" != 'b';\n}");
    let plain = ssgen::syntex::highlight_code("a\r\nb & c", "text").unwrap();
    assert_eq!(visible_text(&plain), "a\nb & c");
}

#[test]
fn slugger_numbers_repeats_of_one_slug() {
    let mut s: Slugger<32> = Slugger::new();
    assert_eq!((s.slug("Intro"), s.slug("Intro"), s.slug("intro!")), ("intro".to_string(), "intro_1".to_string(), "intro_2".to_string()));
}

#[test]
fn one_slugger_never_gives_an_id_twice() {
    let mut s: Slugger<4> = Slugger::new();
    let mut seen = std::collections::HashSet::new();
    for i in 0..200 {
        let text = if i % 3 == 0 { "Same".to_string() } else { format!("Heading {}", i % 7) };
        assert!(seen.insert(s.slug(&text)));
    }
}

#[test]
fn toc_numbers_repeated_headings() {
    let mut events = Vec::new();
    for _ in 0..2 {
        events.push(heading(HeadingRank::H1, None));
        events.push(text("Intro"));
        events.push(PageEvent::End(EndTag::Heading(HeadingRank::H1)));
    }
    let mut it = TocIterator::new(EventStream::new(events), Levels::new(1, 6).unwrap());
    let mut ids = Vec::new();
    while let Some(e) = it.next() {
        if let PageEvent::Start(StartTag::Heading { id: Some(id), .. }) = e {
            ids.push(id);
        }
    }
    assert_eq!(ids, vec!["intro".to_string(), "intro_1".to_string()]);
    assert_eq!(it.toc(), "<ul><li><a href=\"#intro\">Intro</a></li><li><a href=\"#intro_1\">Intro</a></li></ul>");
}

#[test]
fn toc_of_an_empty_page_is_empty() {
    let it: TocIterator<()> = TocIterator::new(EventStream::new(vec![]), Levels::new(1, 6).unwrap());
    assert_eq!(it.toc(), "");
}

#[test]
fn heading_slugs_split_words_at_unicode_spaces() {
    let mut s: Slugger<32> = Slugger::new();
    assert_eq!(s.slug("a\u{a0}b"), "a-b");
    assert_eq!(s.slug("c\u{2003}d"), "c-d");
    assert_eq!(s.slug("e\u{200b}f"), "ef");
}
