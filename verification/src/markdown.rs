use vstd::prelude::*;
use crate::anchor::reversed;
use crate::cmark::OtherEvent;
use crate::events::{events_view, CodeKind, EventModel, EventStream, HeadingRank, MetadataKind, PageEvent, StartTag, EndTag};
use crate::generate::{anchors_flag, metadata_of, wants_anchors, Metadata};
use crate::syntex::{front_matter, process_metadata, yaml_first_document};

verus! {

// Reading Markdown

/// The events pulldown-cmark reads from a page's Markdown, with YAML-style front
/// matter, math, heading attributes and footnotes enabled, as the library's
/// events (only an HTML block line borrowed from the text is an `Html` event).
pub uninterp spec fn markdown_events(text: Seq<char>) -> Seq<EventModel<OtherEvent>>;

/// The library's copy of a pulldown-cmark string.
#[verifier::external_body]
fn owned_text(s: pulldown_cmark::CowStr<'_>) -> String {
    s.into_string()
}

/// The library's copy of a pulldown-cmark heading level.
#[verifier::external_body]
fn heading_level(level: pulldown_cmark::HeadingLevel) -> HeadingRank {
    match level {
        pulldown_cmark::HeadingLevel::H1 => HeadingRank::H1,
        pulldown_cmark::HeadingLevel::H2 => HeadingRank::H2,
        pulldown_cmark::HeadingLevel::H3 => HeadingRank::H3,
        pulldown_cmark::HeadingLevel::H4 => HeadingRank::H4,
        pulldown_cmark::HeadingLevel::H5 => HeadingRank::H5,
        pulldown_cmark::HeadingLevel::H6 => HeadingRank::H6,
    }
}

/// The library's copy of a pulldown-cmark metadata block kind.
#[verifier::external_body]
fn metadata_kind(kind: pulldown_cmark::MetadataBlockKind) -> MetadataKind {
    match kind {
        pulldown_cmark::MetadataBlockKind::YamlStyle => MetadataKind::YamlStyle,
        pulldown_cmark::MetadataBlockKind::PlusesStyle => MetadataKind::PlusesStyle,
    }
}

/// The library's copy of a heading attribute.
#[verifier::external_body]
fn heading_attr(attr: (pulldown_cmark::CowStr<'_>, Option<pulldown_cmark::CowStr<'_>>)) -> (String, Option<String>) {
    (owned_text(attr.0), attr.1.map(owned_text))
}

/// The library's copy of a pulldown-cmark heading start.
#[verifier::external_body]
fn heading_start(
    level: pulldown_cmark::HeadingLevel,
    id: Option<pulldown_cmark::CowStr<'_>>,
    classes: Vec<pulldown_cmark::CowStr<'_>>,
    attrs: Vec<(pulldown_cmark::CowStr<'_>, Option<pulldown_cmark::CowStr<'_>>)>,
) -> PageEvent<OtherEvent> {
    PageEvent::Start(StartTag::Heading {
        level: heading_level(level),
        id: id.map(owned_text),
        classes: classes.into_iter().map(owned_text).collect(),
        attrs: attrs.into_iter().map(heading_attr).collect(),
    })
}

/// The library's copy of a pulldown-cmark start tag; tags the library does not
/// look at are carried as they are.
#[verifier::external_body]
fn page_tag(tag: pulldown_cmark::Tag<'_>) -> PageEvent<OtherEvent> {
    match tag {
        pulldown_cmark::Tag::CodeBlock(pulldown_cmark::CodeBlockKind::Indented) => PageEvent::Start(StartTag::CodeBlock(CodeKind::Indented)),
        pulldown_cmark::Tag::CodeBlock(pulldown_cmark::CodeBlockKind::Fenced(info)) => PageEvent::Start(StartTag::CodeBlock(CodeKind::Fenced(owned_text(info)))),
        pulldown_cmark::Tag::Heading { level, id, classes, attrs } => heading_start(level, id, classes, attrs),
        pulldown_cmark::Tag::FootnoteDefinition(name) => PageEvent::Start(StartTag::FootnoteDefinition(owned_text(name))),
        pulldown_cmark::Tag::MetadataBlock(kind) => PageEvent::Start(StartTag::MetadataBlock(metadata_kind(kind))),
        other => PageEvent::Start(StartTag::Other(OtherEvent { event: pulldown_cmark::Event::Start(other.into_static()) })),
    }
}

/// The library's copy of a pulldown-cmark end tag; ends the library does not
/// look at are carried as they are.
#[verifier::external_body]
fn page_end(end: pulldown_cmark::TagEnd) -> PageEvent<OtherEvent> {
    match end {
        pulldown_cmark::TagEnd::CodeBlock => PageEvent::End(EndTag::CodeBlock),
        pulldown_cmark::TagEnd::Heading(level) => PageEvent::End(EndTag::Heading(heading_level(level))),
        pulldown_cmark::TagEnd::FootnoteDefinition => PageEvent::End(EndTag::FootnoteDefinition),
        pulldown_cmark::TagEnd::MetadataBlock(kind) => PageEvent::End(EndTag::MetadataBlock(metadata_kind(kind))),
        other => PageEvent::End(EndTag::Other(OtherEvent { event: pulldown_cmark::Event::End(other) })),
    }
}

/// The library's copy of a pulldown-cmark event; events the library does not
/// look at are carried as they are.
#[verifier::external_body]
fn page_event(event: pulldown_cmark::Event<'_>) -> PageEvent<OtherEvent> {
    match event {
        pulldown_cmark::Event::Start(tag) => page_tag(tag),
        pulldown_cmark::Event::End(end) => page_end(end),
        pulldown_cmark::Event::Text(s) => PageEvent::Text(owned_text(s)),
        pulldown_cmark::Event::Code(s) => PageEvent::Code(owned_text(s)),
        pulldown_cmark::Event::InlineMath(s) => PageEvent::InlineMath(owned_text(s)),
        pulldown_cmark::Event::DisplayMath(s) => PageEvent::DisplayMath(owned_text(s)),
        pulldown_cmark::Event::Html(pulldown_cmark::CowStr::Borrowed(s)) => PageEvent::Html(s.to_owned()),
        pulldown_cmark::Event::InlineHtml(s) => PageEvent::InlineHtml(owned_text(s)),
        pulldown_cmark::Event::FootnoteReference(s) => PageEvent::FootnoteReference(owned_text(s)),
        other => PageEvent::Other(OtherEvent { event: other.into_static() }),
    }
}

/// `pulldown_cmark::Parser::new_ext` over the text, with YAML-style metadata
/// blocks, math, heading attributes and footnotes enabled: its events, named by
/// `markdown_events`.
#[verifier::external_body]
fn parse_markdown(text: &str) -> (r: Vec<PageEvent<OtherEvent>>)
    ensures
        events_view(r@) == markdown_events(text@),
{
    let options = pulldown_cmark::Options::ENABLE_YAML_STYLE_METADATA_BLOCKS | pulldown_cmark::Options::ENABLE_MATH
        | pulldown_cmark::Options::ENABLE_HEADING_ATTRIBUTES | pulldown_cmark::Options::ENABLE_FOOTNOTES;
    pulldown_cmark::Parser::new_ext(text, options).map(page_event).collect()
}

// Merging text

/// How many text events the events start with.
pub open spec fn text_run<X>(evs: Seq<EventModel<X>>) -> nat
    decreases evs.len(),
{
    if evs.len() > 0 && evs[0] is Text {
        1 + text_run(evs.drop_first())
    } else {
        0
    }
}

/// The texts of the first `n` events (text events), joined.
pub open spec fn joined_texts<X>(evs: Seq<EventModel<X>>, n: nat) -> Seq<char>
    decreases n,
{
    if n == 0 {
        Seq::empty()
    } else {
        joined_texts(evs, (n - 1) as nat) + evs[n - 1]->Text_0
    }
}

pub proof fn lemma_text_run_bounds<X>(evs: Seq<EventModel<X>>)
    ensures
        text_run(evs) <= evs.len(),
        forall|i: int| 0 <= i < text_run(evs) ==> #[trigger] evs[i] is Text,
        text_run(evs) < evs.len() ==> !(evs[text_run(evs) as int] is Text),
    decreases evs.len(),
{
    if evs.len() > 0 && evs[0] is Text {
        lemma_text_run_bounds(evs.drop_first());
        assert forall|i: int| 0 <= i < text_run(evs) implies #[trigger] evs[i] is Text by {
            if i > 0 {
                assert(evs[i] == evs.drop_first()[i - 1]);
            }
        }
        if text_run(evs) < evs.len() {
            assert(evs[text_run(evs) as int] == evs.drop_first()[text_run(evs.drop_first()) as int]);
        }
    }
}

/// The events with each run of two or more text events joined into one text
/// event, left out when the joined text is empty (what
/// `pulldown_cmark::TextMergeStream` does).
pub open spec fn text_merged<X>(evs: Seq<EventModel<X>>) -> Seq<EventModel<X>>
    decreases evs.len(),
{
    if evs.len() == 0 {
        Seq::empty()
    } else if text_run(evs) >= 2 {
        proof {
            lemma_text_run_bounds(evs);
        }
        let t = joined_texts(evs, text_run(evs));
        (if t.len() == 0 { Seq::empty() } else { seq![EventModel::Text(t)] }) + text_merged(evs.skip(text_run(evs) as int))
    } else {
        seq![evs[0]] + text_merged(evs.drop_first())
    }
}

/// A run of `k` text events at the start, followed by a non-text event or none.
proof fn lemma_run_exact<X>(evs: Seq<EventModel<X>>, k: nat)
    requires
        k <= evs.len(),
        forall|i: int| 0 <= i < k ==> #[trigger] evs[i] is Text,
        k == evs.len() || !(evs[k as int] is Text),
    ensures
        text_run(evs) == k,
    decreases k,
{
    if k > 0 {
        assert forall|i: int| 0 <= i < k - 1 implies #[trigger] evs.drop_first()[i] is Text by {
            assert(evs.drop_first()[i] == evs[i + 1]);
        }
        if k - 1 < evs.drop_first().len() {
            assert(evs.drop_first()[k - 1] == evs[k as int]);
        }
        lemma_run_exact(evs.drop_first(), (k - 1) as nat);
    } else if evs.len() > 0 {
        assert(!(evs[0] is Text));
    }
}

fn is_text<X>(e: &PageEvent<X>) -> (r: bool)
    ensures
        r == (e@ is Text),
{
    matches!(e, PageEvent::Text(_))
}

proof fn lemma_pop_reverse<X>(before: Seq<PageEvent<X>>, after: Seq<PageEvent<X>>, e: PageEvent<X>)
    requires
        before == after.push(e),
    ensures
        events_view(before.reverse())[0] == e@,
        events_view(before.reverse()).len() == after.len() + 1,
        events_view(after.reverse()) == events_view(before.reverse()).drop_first(),
{
    assert(before.reverse() =~= seq![e] + after.reverse());
    assert(events_view(after.reverse()) =~= events_view(before.reverse()).drop_first());
}

/// Appends to `buf` the texts of the text events on top of the stack, taking
/// them off; `rem` is what the stack held with the first text event on top.
fn gather_texts<X>(stack: &mut Vec<PageEvent<X>>, buf: &mut String, Ghost(rem): Ghost<Seq<EventModel<X>>>) -> (k: Ghost<nat>)
    requires
        rem.len() >= 2,
        rem[0] is Text,
        rem[1] is Text,
        old(buf)@ == joined_texts(rem, 1),
        events_view(old(stack)@.reverse()) == rem.skip(1),
    ensures
        2 <= k@ <= rem.len(),
        forall|i: int| 0 <= i < k@ ==> #[trigger] rem[i] is Text,
        k@ == rem.len() || !(rem[k@ as int] is Text),
        final(buf)@ == joined_texts(rem, k@),
        events_view(final(stack)@.reverse()) == rem.skip(k@ as int),
{
    let ghost mut k: nat = 1;
    while stack.len() > 0 && is_text(&stack[stack.len() - 1])
        invariant
            1 <= k <= rem.len(),
            rem.len() >= 2,
            rem[1] is Text,
            forall|i: int| 0 <= i < k ==> #[trigger] rem[i] is Text,
            buf@ == joined_texts(rem, k),
            events_view(stack@.reverse()) == rem.skip(k as int),
        decreases stack@.len(),
    {
        let ghost before = stack@;
        let next = stack.pop().unwrap();
        proof {
            assert(before == stack@.push(next));
            lemma_pop_reverse(before, stack@, next);
            assert(rem.skip(k as int)[0] == rem[k as int]);
            assert(rem.skip(k as int).drop_first() =~= rem.skip(k + 1int));
        }
        let ghost b0 = buf@;
        if let PageEvent::Text(more) = next {
            buf.append(more.as_str());
        }
        proof {
            assert(joined_texts(rem, k + 1) == b0 + rem[k as int]->Text_0);
            k = k + 1;
        }
    }
    proof {
        if k < rem.len() {
            assert(rem.skip(k as int)[0] == rem[k as int]);
            assert(stack@.reverse()[0] == stack@[stack@.len() - 1]);
            assert(events_view(stack@.reverse())[0] == stack@.reverse()[0]@);
        }
        if k == 1 {
            assert(rem.skip(1)[0] == rem[1]);
            assert(stack@.reverse()[0] == stack@[stack@.len() - 1]);
            assert(events_view(stack@.reverse())[0] == stack@.reverse()[0]@);
        }
    }
    Ghost(k)
}

/// The texts of the text events, joined in order.
pub open spec fn all_texts<X>(evs: Seq<EventModel<X>>) -> Seq<char>
    decreases evs.len(),
{
    if evs.len() == 0 {
        Seq::empty()
    } else {
        (match evs[0] {
            EventModel::Text(t) => t,
            _ => Seq::empty(),
        }) + all_texts(evs.drop_first())
    }
}

/// The events other than text events, in order.
pub open spec fn non_texts<X>(evs: Seq<EventModel<X>>) -> Seq<EventModel<X>>
    decreases evs.len(),
{
    if evs.len() == 0 {
        Seq::empty()
    } else {
        (if evs[0] is Text { Seq::empty() } else { seq![evs[0]] }) + non_texts(evs.drop_first())
    }
}

/// Reading past the first `k` events of a text run.
proof fn lemma_past_texts<X>(evs: Seq<EventModel<X>>, k: nat)
    requires
        k <= text_run(evs),
    ensures
        all_texts(evs) == joined_texts(evs, k) + all_texts(evs.skip(k as int)),
        non_texts(evs) == non_texts(evs.skip(k as int)),
    decreases k,
{
    lemma_text_run_bounds(evs);
    if k == 0 {
        assert(evs.skip(0) =~= evs);
        assert(Seq::<char>::empty() + all_texts(evs) =~= all_texts(evs));
    } else {
        lemma_past_texts(evs, (k - 1) as nat);
        let s = evs.skip(k - 1);
        assert(s[0] == evs[k - 1]);
        assert(evs[k - 1] is Text);
        assert(s.drop_first() =~= evs.skip(k as int));
        let t = evs[k - 1]->Text_0;
        assert(all_texts(s) == t + all_texts(s.drop_first()));
        assert(non_texts(s) =~= non_texts(s.drop_first()));
        assert(joined_texts(evs, (k - 1) as nat) + (t + all_texts(evs.skip(k as int)))
            =~= (joined_texts(evs, (k - 1) as nat) + t) + all_texts(evs.skip(k as int)));
    }
}

/// Merging text events loses no text and moves nothing else: the texts, joined,
/// are the same before and after, and so are the other events, in order.
pub proof fn law_merging_keeps_text_and_order<X>(evs: Seq<EventModel<X>>)
    ensures
        all_texts(text_merged(evs)) == all_texts(evs),
        non_texts(text_merged(evs)) == non_texts(evs),
    decreases evs.len(),
{
    if evs.len() == 0 {
    } else if text_run(evs) >= 2 {
        lemma_text_run_bounds(evs);
        let k = text_run(evs);
        let t = joined_texts(evs, k);
        let rest = evs.skip(k as int);
        law_merging_keeps_text_and_order(rest);
        lemma_past_texts(evs, k);
        let head: Seq<EventModel<X>> = if t.len() == 0 { Seq::empty() } else { seq![EventModel::Text(t)] };
        let merged = head + text_merged(rest);
        assert(text_merged(evs) == merged);
        if t.len() == 0 {
            assert(merged =~= text_merged(rest));
            assert(t + all_texts(rest) =~= all_texts(rest));
        } else {
            assert(merged[0] == EventModel::<X>::Text(t));
            assert(merged.drop_first() =~= text_merged(rest));
        }
    } else {
        let rest = evs.drop_first();
        law_merging_keeps_text_and_order(rest);
        let merged = seq![evs[0]] + text_merged(rest);
        assert(text_merged(evs) == merged);
        assert(merged[0] == evs[0]);
        assert(merged.drop_first() =~= text_merged(rest));
    }
}

/// Merged events start with a text event only where the events did.
proof fn lemma_merged_starts_like<X>(evs: Seq<EventModel<X>>)
    ensures
        text_merged(evs).len() > 0 && text_merged(evs)[0] is Text ==> evs.len() > 0 && evs[0] is Text,
    decreases evs.len(),
{
    if evs.len() > 0 && text_run(evs) >= 2 {
        lemma_text_run_bounds(evs);
        lemma_merged_starts_like(evs.skip(text_run(evs) as int));
    } else if evs.len() > 0 {
        let merged = seq![evs[0]] + text_merged(evs.drop_first());
        assert(text_merged(evs) == merged);
        assert(merged[0] == evs[0]);
    }
}

/// No two text events are next to each other once the texts are merged.
pub proof fn law_merged_texts_never_adjacent<X>(evs: Seq<EventModel<X>>)
    ensures
        forall|i: int| 0 <= i < text_merged(evs).len() - 1 ==>
            !(#[trigger] text_merged(evs)[i] is Text && text_merged(evs)[i + 1] is Text),
    decreases evs.len(),
{
    if evs.len() == 0 {
    } else if text_run(evs) >= 2 {
        lemma_text_run_bounds(evs);
        let k = text_run(evs);
        let t = joined_texts(evs, k);
        let rest = evs.skip(k as int);
        law_merged_texts_never_adjacent(rest);
        lemma_merged_starts_like(rest);
        if k < evs.len() {
            assert(rest[0] == evs[k as int]);
        }
        let tail = text_merged(rest);
        let head: Seq<EventModel<X>> = if t.len() == 0 { Seq::empty() } else { seq![EventModel::Text(t)] };
        assert(text_merged(evs) == head + tail);
        assert forall|i: int| 0 <= i < (head + tail).len() - 1 implies
            !(#[trigger] (head + tail)[i] is Text && (head + tail)[i + 1] is Text) by {
            if i >= head.len() {
                assert((head + tail)[i] == tail[i - head.len()]);
                assert((head + tail)[i + 1] == tail[i - head.len() + 1]);
            } else {
                assert((head + tail)[i + 1] == tail[0]);
            }
        }
    } else {
        let rest = evs.drop_first();
        law_merged_texts_never_adjacent(rest);
        lemma_merged_starts_like(rest);
        lemma_text_run_bounds(evs);
        if evs[0] is Text && rest.len() > 0 {
            assert(text_run(evs) == 1 + text_run(rest));
            lemma_text_run_bounds(rest);
            assert(!(rest[0] is Text));
        }
        let tail = text_merged(rest);
        let m = seq![evs[0]] + tail;
        assert(text_merged(evs) == m);
        assert forall|i: int| 0 <= i < m.len() - 1 implies !(#[trigger] m[i] is Text && m[i + 1] is Text) by {
            if i >= 1 {
                assert(m[i] == tail[i - 1]);
                assert(m[i + 1] == tail[i]);
            } else {
                assert(m[0] == evs[0]);
                assert(m[1] == tail[0]);
            }
        }
    }
}

/// Joins each run of two or more text events into one text event, dropping
/// the joined text when it is empty.
#[verifier::spinoff_prover]
#[verifier::rlimit(50)]
pub fn merge_text<X>(events: Vec<PageEvent<X>>) -> (r: Vec<PageEvent<X>>)
    ensures
        events_view(r@) == text_merged(events_view(events@)),
{
    let ghost all = events_view(events@);
    let mut stack = reversed(events);
    let mut out: Vec<PageEvent<X>> = Vec::new();
    proof {
        assert(stack@.reverse() =~= events@);
        assert(events_view(out@) + text_merged(all) =~= text_merged(all));
    }
    while stack.len() > 0
        invariant
            events_view(out@) + text_merged(events_view(stack@.reverse())) == text_merged(all),
        decreases stack@.len(),
    {
        let ghost rem = events_view(stack@.reverse());
        let ghost before = stack@;
        let e = stack.pop().unwrap();
        proof {
            assert(before == stack@.push(e));
            assert(before.reverse() =~= seq![e] + stack@.reverse());
            assert(rem[0] == e@);
            assert(rem.drop_first() =~= events_view(stack@.reverse()));
        }
        let next_is_text = stack.len() > 0 && is_text(&stack[stack.len() - 1]);
        proof {
            if stack@.len() > 0 {
                assert(rem[1] == stack@[stack@.len() - 1]@);
            }
        }
        match e {
            PageEvent::Text(t) => {
                if next_is_text {
                    let mut buf = t;
                    proof {
                        assert(joined_texts(rem, 0) =~= Seq::<char>::empty());
                        assert(buf@ =~= joined_texts(rem, 1));
                        assert(events_view(stack@.reverse()) =~= rem.skip(1));
                    }
                    let Ghost(k) = gather_texts(&mut stack, &mut buf, Ghost(rem));
                    proof {
                        lemma_run_exact(rem, k);
                    }
                    if buf.as_str().unicode_len() > 0 {
                        let ghost o = out@;
                        out.push(PageEvent::Text(buf));
                        proof {
                            assert(events_view(out@) =~= events_view(o) + seq![EventModel::<X>::Text(joined_texts(rem, k))]);
                        }
                    } else {
                        proof {
                            assert(joined_texts(rem, k).len() == 0);
                        }
                    }
                } else {
                    let ghost o = out@;
                    out.push(PageEvent::Text(t));
                    proof {
                        lemma_run_exact(rem, 1);
                        assert(events_view(out@) =~= events_view(o) + seq![rem[0]]);
                    }
                }
            },
            other => {
                let ghost o = out@;
                out.push(other);
                proof {
                    assert(text_run(rem) == 0);
                    assert(events_view(out@) =~= events_view(o) + seq![rem[0]]);
                }
            },
        }
    }
    proof {
        assert(stack@.reverse() =~= Seq::<PageEvent<X>>::empty());
        assert(events_view(out@) + Seq::<EventModel<X>>::empty() =~= events_view(out@));
    }
    out
}

// Pages

/// The YAML document of a page's front matter, if it has one that loads.
pub open spec fn page_document(evs: Seq<EventModel<OtherEvent>>) -> Option<crate::syntex::YamlValue> {
    match front_matter(evs).1 {
        Some(yaml) => yaml_first_document(yaml),
        None => None,
    }
}

/// Reads an article: its front matter, whether it asks for heading anchors, and
/// the events after the front matter with runs of text joined; `None` when it
/// has no front matter that loads or the front matter has no title.
pub fn read_page(text: &str) -> (r: Option<(Metadata, bool, EventStream<OtherEvent>)>)
    ensures
        match r {
            Some((m, anchors, stream)) => {
                let evs = markdown_events(text@);
                &&& page_document(evs) matches Some(doc)
                &&& metadata_of(doc) == Some(m@)
                &&& anchors == wants_anchors(doc)
                &&& stream.rest() == text_merged(evs.skip(front_matter(evs).0 as int))
            },
            None => page_document(markdown_events(text@)) matches Some(doc) ==> metadata_of(doc) is None,
        },
{
    let mut stream = EventStream::new(parse_markdown(text));
    let doc = match process_metadata(&mut stream) {
        Some(doc) => doc,
        None => return None,
    };
    let metadata = match Metadata::parse_metadata(&doc) {
        Some(m) => m,
        None => return None,
    };
    let anchors = anchors_flag(&doc);
    let rest = merge_text(stream.into_events());
    Some((metadata, anchors, EventStream::new(rest)))
}

/// Reads the site's index page: its front matter and the events after it as
/// they are; `None` when it has no front matter that loads or the front matter
/// has no title.
pub fn read_index_page(text: &str) -> (r: Option<(Metadata, EventStream<OtherEvent>)>)
    ensures
        match r {
            Some((m, stream)) => {
                let evs = markdown_events(text@);
                &&& page_document(evs) matches Some(doc)
                &&& metadata_of(doc) == Some(m@)
                &&& stream.rest() == evs.skip(front_matter(evs).0 as int)
            },
            None => page_document(markdown_events(text@)) matches Some(doc) ==> metadata_of(doc) is None,
        },
{
    let mut stream = EventStream::new(parse_markdown(text));
    let doc = match process_metadata(&mut stream) {
        Some(doc) => doc,
        None => return None,
    };
    let metadata = match Metadata::parse_metadata(&doc) {
        Some(m) => m,
        None => return None,
    };
    Some((metadata, stream))
}

} // verus!
