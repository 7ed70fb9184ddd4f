use vstd::prelude::*;
use crate::events::{
    events_view, heading_text, inline_text, opt_view, CodeKind, PageEvent, EventModel, EventStream,
    HeadingRank, StartTag, EndTag, TagModel,
};
use crate::syntex::{highlight_code, highlight_fits, latex_to_mathml, new_storage, mathml_output, DisplayMode, RenderError};
use crate::utils::{lemma_slug_scan_from, slug_push_str, slug_scan, slug_scan_from, Separators};

verus! {

// Heading anchors

/// Where a heading is in its rewriting: not in one, collecting its events, or
/// giving its events back (from the end of the list) after the opening tag.
pub enum Head<X> {
    Inactive,
    Capturing(Vec<PageEvent<X>>, HeadingRank, Option<String>),
    Emitting(Vec<PageEvent<X>>, HeadingRank),
}

/// The value of a `Head`, with events as models.
pub enum HeadModel<X> {
    Inactive,
    Capturing(Seq<EventModel<X>>, HeadingRank, Option<Seq<char>>),
    Emitting(Seq<EventModel<X>>, HeadingRank),
}

impl<X> View for Head<X> {
    type V = HeadModel<X>;

    open spec fn view(&self) -> HeadModel<X> {
        match self {
            Head::Inactive => HeadModel::Inactive,
            Head::Capturing(evs, level, id) => HeadModel::Capturing(events_view(evs@), *level, opt_view(*id)),
            Head::Emitting(evs, level) => HeadModel::Emitting(events_view(evs@), *level),
        }
    }
}

/// The state of a heading-anchor rewriter: the events still to be read, the
/// info string of the open fenced code block, the name of the open footnote
/// definition, and the heading being rewritten.
pub struct AnchorsModel<X> {
    pub rest: Seq<EventModel<X>>,
    pub code: Option<Seq<char>>,
    pub footnote: Option<Seq<char>>,
    pub head: HeadModel<X>,
}

/// The anchor id made from a heading's events: the slug of their text, with
/// whitespace and `-` as separators and no trailing dash removed.
pub open spec fn events_slug<X>(events: Seq<EventModel<X>>) -> Seq<char> {
    slug_scan(Separators::WhitespaceOrHyphen, heading_text(events)).0
}

/// `<hN id="ID"><a href="#ID">`: the opening of an anchored heading.
pub open spec fn heading_open(level: HeadingRank, id: Seq<char>) -> Seq<char> {
    "<"@ + level.tag_name() + " id=\""@ + id + "\"><a href=\"#"@ + id + "\">"@
}

/// `</a></hN>`: the closing of an anchored heading.
pub open spec fn heading_close(level: HeadingRank) -> Seq<char> {
    "</a></"@ + level.tag_name() + ">"@
}

/// A footnote reference as a superscript link to its definition.
pub open spec fn footnote_reference(name: Seq<char>) -> Seq<char> {
    "<sup class=\"footnote-reference\" id=\"fr-"@ + name + "\"><a href=\"#"@ + name + "\">"@ + name
        + "</a></sup>"@
}

/// The end of a footnote definition: a link back to its reference.
pub open spec fn footnote_back(name: Seq<char>) -> Seq<char> {
    " <a href=\"#fr-"@ + name + "\">\u{21a9}</a></div>\n"@
}

/// The marker comment that opens a table of contents.
pub open spec fn toc_start_marker() -> Seq<char> {
    "<!--toc:start-->\n"@
}

/// The marker comment that closes a table of contents.
pub open spec fn toc_end_marker() -> Seq<char> {
    "<!--toc:end-->\n"@
}

/// What a table of contents opens with: a collapsible `details` element (of
/// class `toc` when footnotes are rendered too).
pub open spec fn toc_open(footnotes: bool) -> Seq<char> {
    if footnotes {
        "<details class=\"toc\"><summary>Contents</summary>"@
    } else {
        "<details><summary>Contents</summary>"@
    }
}

/// A result for rendered output: the event, or an error when rendering failed.
pub open spec fn rendered<X>(r: Option<Seq<char>>, inline: bool) -> Result<Option<EventModel<X>>, ()> {
    match r {
        Some(s) => Ok(Some(if inline { EventModel::InlineHtml(s) } else { EventModel::Html(s) })),
        None => Err(()),
    }
}

/// What one `next` of a heading-anchor rewriter does: the state after it and
/// its outcome (an event, `Ok(None)` at the end of the input, `Err` when a
/// formula or code block failed to render). `footnotes` selects the rewriter
/// that renders footnotes too; `highlighted` is what the highlighter returned,
/// if it was called (`None` for an error).
pub open spec fn anchors_next<X>(footnotes: bool, m: AnchorsModel<X>, highlighted: Option<Seq<char>>) -> (
    AnchorsModel<X>,
    Result<Option<EventModel<X>>, ()>,
)
    decreases m.rest.len(),
{
    match m.head {
        HeadModel::Emitting(stack, level) => {
            if stack.len() > 0 {
                let m2 = AnchorsModel { head: HeadModel::Emitting(stack.drop_last(), level), ..m };
                match stack.last() {
                    EventModel::InlineMath(latex) => (m2, rendered(mathml_output(latex, DisplayMode::Inline), true)),
                    e => (m2, Ok(Some(e))),
                }
            } else {
                (AnchorsModel { head: HeadModel::Inactive, ..m }, Ok(Some(EventModel::Html(heading_close(level)))))
            }
        },
        _ => {
            if m.rest.len() == 0 {
                (m, Ok(None))
            } else {
                let e = m.rest[0];
                let m1 = AnchorsModel { rest: m.rest.drop_first(), ..m };
                match e {
                    EventModel::Start(TagModel::CodeBlock(Some(lang))) =>
                        anchors_next(footnotes, AnchorsModel { code: Some(lang), ..m1 }, highlighted),
                    EventModel::Text(_) if m.code is Some => (m1, rendered(highlighted, false)),
                    EventModel::End(EndTag::CodeBlock) if m.code is Some =>
                        anchors_next(footnotes, AnchorsModel { code: None, ..m1 }, highlighted),
                    EventModel::DisplayMath(latex) => (m1, rendered(mathml_output(latex, DisplayMode::Block), false)),
                    EventModel::InlineMath(latex) if m.head is Inactive =>
                        (m1, rendered(mathml_output(latex, DisplayMode::Inline), true)),
                    EventModel::FootnoteReference(name) if footnotes =>
                        (m1, Ok(Some(EventModel::InlineHtml(footnote_reference(name))))),
                    EventModel::Start(TagModel::FootnoteDefinition(name)) if footnotes =>
                        (AnchorsModel { footnote: Some(name), ..m1 }, Ok(Some(e))),
                    EventModel::End(EndTag::FootnoteDefinition) if footnotes && m.footnote is Some =>
                        (AnchorsModel { footnote: None, ..m1 }, Ok(Some(EventModel::Html(footnote_back(m.footnote->0))))),
                    EventModel::Html(s) if s == toc_start_marker() => (m1, Ok(Some(EventModel::Html(toc_open(footnotes))))),
                    EventModel::Html(s) if s == toc_end_marker() => (m1, Ok(Some(EventModel::Html("</details>"@)))),
                    EventModel::Start(TagModel::Heading { level, id, .. }) =>
                        anchors_next(footnotes, AnchorsModel { head: HeadModel::Capturing(Seq::empty(), level, id), ..m1 }, highlighted),
                    EventModel::End(EndTag::Heading(_)) if m.head is Capturing => {
                        let evs = m.head->Capturing_0;
                        let level = m.head->Capturing_1;
                        let id = match m.head->Capturing_2 {
                            Some(id) => id,
                            None => events_slug(evs),
                        };
                        (
                            AnchorsModel { head: HeadModel::Emitting(evs.reverse(), level), ..m1 },
                            Ok(Some(EventModel::Html(heading_open(level, id)))),
                        )
                    },
                    _ => {
                        if m.head is Capturing {
                            let m2 = AnchorsModel {
                                head: HeadModel::Capturing(m.head->Capturing_0.push(e), m.head->Capturing_1, m.head->Capturing_2),
                                ..m1
                            };
                            anchors_next(footnotes, m2, highlighted)
                        } else {
                            (m1, Ok(Some(e)))
                        }
                    },
                }
            }
        },
    }
}

/// The code text and info string one `next` of a heading-anchor rewriter
/// highlights, if it highlights one (reading on as `anchors_next` does).
pub open spec fn anchors_code<X>(footnotes: bool, m: AnchorsModel<X>) -> Option<(Seq<char>, Seq<char>)>
    decreases m.rest.len(),
{
    match m.head {
        HeadModel::Emitting(..) => None,
        _ => {
            if m.rest.len() == 0 {
                None
            } else {
                let e = m.rest[0];
                let m1 = AnchorsModel { rest: m.rest.drop_first(), ..m };
                match e {
                    EventModel::Start(TagModel::CodeBlock(Some(lang))) =>
                        anchors_code(footnotes, AnchorsModel { code: Some(lang), ..m1 }),
                    EventModel::Text(t) if m.code is Some => Some((t, m.code->0)),
                    EventModel::End(EndTag::CodeBlock) if m.code is Some =>
                        anchors_code(footnotes, AnchorsModel { code: None, ..m1 }),
                    EventModel::DisplayMath(_) => None,
                    EventModel::InlineMath(_) if m.head is Inactive => None,
                    EventModel::FootnoteReference(_) if footnotes => None,
                    EventModel::Start(TagModel::FootnoteDefinition(_)) if footnotes => None,
                    EventModel::End(EndTag::FootnoteDefinition) if footnotes && m.footnote is Some => None,
                    EventModel::Html(s) if s == toc_start_marker() => None,
                    EventModel::Html(s) if s == toc_end_marker() => None,
                    EventModel::Start(TagModel::Heading { level, id, .. }) =>
                        anchors_code(footnotes, AnchorsModel { head: HeadModel::Capturing(Seq::empty(), level, id), ..m1 }),
                    EventModel::End(EndTag::Heading(_)) if m.head is Capturing => None,
                    _ => {
                        if m.head is Capturing {
                            anchors_code(footnotes, AnchorsModel {
                                head: HeadModel::Capturing(m.head->Capturing_0.push(e), m.head->Capturing_1, m.head->Capturing_2),
                                ..m1
                            })
                        } else {
                            None
                        }
                    },
                }
            }
        },
    }
}

/// Closing a fenced code block leaves the rewriter outside any code block: what
/// follows the end event is read exactly as it would be had no block been open.
/// Outside a block and a heading, a text comes out unchanged; so a fenced block
/// followed by a text gives the highlighted block, then the text itself.
pub proof fn law_code_block_closes<X>(
    footnotes: bool,
    m: AnchorsModel<X>,
    after: Seq<EventModel<X>>,
    lang: Seq<char>,
    code: Seq<char>,
    text: Seq<char>,
    h: Option<Seq<char>>,
    h2: Option<Seq<char>>,
)
    requires
        !(m.head is Emitting),
    ensures
        anchors_next(footnotes, AnchorsModel { rest: seq![EventModel::End(EndTag::CodeBlock)] + after, code: Some(lang), ..m }, h)
            == anchors_next(footnotes, AnchorsModel { rest: after, code: None, ..m }, h),
        m.head is Inactive ==> anchors_next(footnotes, AnchorsModel { rest: seq![EventModel::Text(text)] + after, code: None, ..m }, h)
            == (AnchorsModel { rest: after, code: None, ..m }, Ok::<Option<EventModel<X>>, ()>(Some(EventModel::Text(text)))),
        m.head is Inactive ==> ({
            let m0 = AnchorsModel {
                rest: seq![
                    EventModel::Start(TagModel::CodeBlock(Some(lang))),
                    EventModel::Text(code),
                    EventModel::End(EndTag::CodeBlock),
                    EventModel::Text(text),
                ] + after,
                code: None,
                ..m
            };
            let (m1, o1) = anchors_next(footnotes, m0, h);
            &&& o1 == rendered::<X>(h, false)
            &&& anchors_next(footnotes, m1, h2)
                == (AnchorsModel { rest: after, code: None, ..m }, Ok::<Option<EventModel<X>>, ()>(Some(EventModel::Text(text))))
        }),
{
    let ev = EventModel::<X>::End(EndTag::CodeBlock);
    let et = EventModel::<X>::Text(text);
    assert((seq![ev] + after).drop_first() =~= after);
    assert((seq![ev] + after)[0] == ev);
    assert((seq![et] + after).drop_first() =~= after);
    assert((seq![et] + after)[0] == et);
    if m.head is Inactive {
        let evs = seq![EventModel::Start(TagModel::CodeBlock(Some(lang))), EventModel::Text(code), ev, et] + after;
        let m0 = AnchorsModel { rest: evs, code: None, ..m };
        let ma = AnchorsModel { rest: evs.drop_first(), code: Some(lang), ..m };
        assert(evs[0] == EventModel::<X>::Start(TagModel::CodeBlock(Some(lang))));
        assert(anchors_next(footnotes, m0, h) == anchors_next(footnotes, ma, h));
        assert(evs.drop_first()[0] == EventModel::<X>::Text(code));
        assert(evs.drop_first().drop_first() =~= seq![ev] + (seq![et] + after));
        let mb = AnchorsModel { rest: seq![ev] + (seq![et] + after), code: Some(lang), ..m };
        assert(anchors_next(footnotes, m0, h) == (mb, rendered::<X>(h, false)));
        assert((seq![ev] + (seq![et] + after)).drop_first() =~= seq![et] + after);
        assert((seq![ev] + (seq![et] + after))[0] == ev);
        assert(anchors_next(footnotes, mb, h2) == anchors_next(footnotes, AnchorsModel { rest: seq![et] + after, code: None, ..m }, h2));
    }
}

/// Footnotes are linked both ways when the rewriter renders them: a reference
/// becomes a superscript link to the definition named like it, and the end of a
/// definition becomes a link back to the reference of the same name, the name
/// the definition's start (passed on as it is) gave. A rewriter that leaves
/// footnotes alone passes a reference on unchanged.
pub proof fn law_footnotes_link_both_ways<X>(
    m: AnchorsModel<X>,
    name: Seq<char>,
    after: Seq<EventModel<X>>,
    h: Option<Seq<char>>,
    h2: Option<Seq<char>>,
)
    requires
        m.head is Inactive,
    ensures
        anchors_next(true, AnchorsModel { rest: seq![EventModel::FootnoteReference(name)] + after, ..m }, h) == (
            AnchorsModel { rest: after, ..m },
            Ok::<Option<EventModel<X>>, ()>(Some(EventModel::InlineHtml(
                "<sup class=\"footnote-reference\" id=\"fr-"@ + name + "\"><a href=\"#"@ + name + "\">"@ + name + "</a></sup>"@,
            ))),
        ),
        anchors_next(false, AnchorsModel { rest: seq![EventModel::FootnoteReference(name)] + after, ..m }, h) == (
            AnchorsModel { rest: after, ..m },
            Ok::<Option<EventModel<X>>, ()>(Some(EventModel::FootnoteReference(name))),
        ),
        ({
            let m0 = AnchorsModel {
                rest: seq![
                    EventModel::Start(TagModel::FootnoteDefinition(name)),
                    EventModel::End(EndTag::FootnoteDefinition),
                ] + after,
                ..m
            };
            let (m1, o1) = anchors_next(true, m0, h);
            &&& o1 == Ok::<Option<EventModel<X>>, ()>(Some(EventModel::Start(TagModel::FootnoteDefinition(name))))
            &&& m1.footnote == Some(name)
            &&& anchors_next(true, m1, h2) == (
                AnchorsModel { rest: after, footnote: None, ..m },
                Ok::<Option<EventModel<X>>, ()>(Some(EventModel::Html(" <a href=\"#fr-"@ + name + "\">\u{21a9}</a></div>\n"@))),
            )
        }),
{
    let er = EventModel::<X>::FootnoteReference(name);
    let es = EventModel::<X>::Start(TagModel::FootnoteDefinition(name));
    let ee = EventModel::<X>::End(EndTag::FootnoteDefinition);
    assert((seq![er] + after).drop_first() =~= after);
    assert((seq![er] + after)[0] == er);
    let evs = seq![es, ee] + after;
    assert(evs[0] == es);
    assert(evs.drop_first() =~= seq![ee] + after);
    assert((seq![ee] + after)[0] == ee);
    assert((seq![ee] + after).drop_first() =~= after);
}

/// The table-of-contents markers become a collapsible block: the opening marker
/// opens a `details` element with a `Contents` summary (of class `toc` when
/// footnotes are rendered too), the closing marker closes it.
pub proof fn law_toc_markers_become_details<X>(
    footnotes: bool,
    m: AnchorsModel<X>,
    after: Seq<EventModel<X>>,
    h: Option<Seq<char>>,
)
    requires
        !(m.head is Emitting),
    ensures
        anchors_next(footnotes, AnchorsModel { rest: seq![EventModel::Html("<!--toc:start-->\n"@)] + after, ..m }, h) == (
            AnchorsModel { rest: after, ..m },
            Ok::<Option<EventModel<X>>, ()>(Some(EventModel::Html(
                if footnotes {
                    "<details class=\"toc\"><summary>Contents</summary>"@
                } else {
                    "<details><summary>Contents</summary>"@
                },
            ))),
        ),
        anchors_next(footnotes, AnchorsModel { rest: seq![EventModel::Html("<!--toc:end-->\n"@)] + after, ..m }, h) == (
            AnchorsModel { rest: after, ..m },
            Ok::<Option<EventModel<X>>, ()>(Some(EventModel::Html("</details>"@))),
        ),
{
    let es = EventModel::<X>::Html("<!--toc:start-->\n"@);
    let ee = EventModel::<X>::Html("<!--toc:end-->\n"@);
    assert((seq![es] + after).drop_first() =~= after);
    assert((seq![es] + after)[0] == es);
    assert((seq![ee] + after).drop_first() =~= after);
    assert((seq![ee] + after)[0] == ee);
    reveal_strlit("<!--toc:start-->\n");
    reveal_strlit("<!--toc:end-->\n");
    assert("<!--toc:end-->\n"@.len() == 15);
    assert(toc_start_marker().len() == 17);
}

/// What `k` successive steps of a heading-anchor rewriter give out, from the
/// given state, when no code block is highlighted on the way.
pub open spec fn anchors_run<X>(footnotes: bool, m: AnchorsModel<X>, k: nat) -> (
    AnchorsModel<X>,
    Seq<Result<Option<EventModel<X>>, ()>>,
)
    decreases k,
{
    if k == 0 {
        (m, Seq::empty())
    } else {
        let (m1, o) = anchors_next(footnotes, m, None);
        let (m2, os) = anchors_run(footnotes, m1, (k - 1) as nat);
        (m2, seq![o] + os)
    }
}

/// An event that a heading being rewritten takes in as it is: anything but a
/// fenced code block start, a display formula, the footnote events and
/// table-of-contents markers the rewriter renders, and heading tags.
pub open spec fn kept_in_heading<X>(footnotes: bool, e: EventModel<X>) -> bool {
    match e {
        EventModel::Start(TagModel::CodeBlock(Some(_))) => false,
        EventModel::DisplayMath(_) => false,
        EventModel::FootnoteReference(_) => !footnotes,
        EventModel::Start(TagModel::FootnoteDefinition(_)) => !footnotes,
        EventModel::End(EndTag::FootnoteDefinition) => !footnotes,
        EventModel::Html(s) => s != toc_start_marker() && s != toc_end_marker(),
        EventModel::Start(TagModel::Heading { .. }) => false,
        EventModel::End(EndTag::Heading(_)) => false,
        _ => true,
    }
}

/// How an event of a heading comes out after the heading's opening: an inline
/// formula rendered as MathML, anything else as it is.
pub open spec fn heading_part<X>(e: EventModel<X>) -> Result<Option<EventModel<X>>, ()> {
    match e {
        EventModel::InlineMath(latex) => rendered(mathml_output(latex, DisplayMode::Inline), true),
        _ => Ok(Some(e)),
    }
}

/// Each event of a heading as it comes out.
pub open spec fn heading_parts<X>(evs: Seq<EventModel<X>>) -> Seq<Result<Option<EventModel<X>>, ()>> {
    evs.map_values(|e: EventModel<X>| heading_part(e))
}

/// Collecting a heading's events takes them in one by one, in order, until its end tag.
proof fn lemma_anchors_collect<X>(
    footnotes: bool,
    m: AnchorsModel<X>,
    evs: Seq<EventModel<X>>,
    tail: Seq<EventModel<X>>,
    h: Option<Seq<char>>,
)
    requires
        m.head is Capturing,
        m.code is None,
        m.rest == evs + tail,
        forall|i: int| 0 <= i < evs.len() ==> kept_in_heading(footnotes, #[trigger] evs[i]),
    ensures
        anchors_next(footnotes, m, h) == anchors_next(footnotes, AnchorsModel {
            rest: tail,
            head: HeadModel::Capturing(m.head->Capturing_0 + evs, m.head->Capturing_1, m.head->Capturing_2),
            ..m
        }, h),
    decreases evs.len(),
{
    let acc = m.head->Capturing_0;
    if evs.len() == 0 {
        assert(acc + evs =~= acc);
        assert(m.rest =~= tail);
    } else {
        let e = evs[0];
        assert(kept_in_heading(footnotes, e));
        assert(m.rest[0] == e);
        let m2 = AnchorsModel {
            rest: m.rest.drop_first(),
            head: HeadModel::Capturing(acc.push(e), m.head->Capturing_1, m.head->Capturing_2),
            ..m
        };
        assert(anchors_next(footnotes, m, h) == anchors_next(footnotes, m2, h));
        assert(m.rest.drop_first() =~= evs.drop_first() + tail);
        assert forall|i: int| 0 <= i < evs.drop_first().len() implies kept_in_heading(footnotes, #[trigger] evs.drop_first()[i]) by {
            assert(evs.drop_first()[i] == evs[i + 1]);
        }
        lemma_anchors_collect(footnotes, m2, evs.drop_first(), tail, h);
        assert(acc.push(e) + evs.drop_first() =~= acc + evs);
    }
}

/// Giving back a collected heading: its events from the end of the list, then its closing.
proof fn lemma_anchors_give_back<X>(footnotes: bool, m: AnchorsModel<X>, stack: Seq<EventModel<X>>, level: HeadingRank)
    requires
        m.head == HeadModel::Emitting(stack, level),
    ensures
        anchors_run(footnotes, m, stack.len() + 1) == (
            AnchorsModel { head: HeadModel::Inactive, ..m },
            heading_parts(stack.reverse()) + seq![Ok(Some(EventModel::Html(heading_close(level))))],
        ),
    decreases stack.len(),
{
    let m1 = anchors_next(footnotes, m, None).0;
    let close = Ok::<Option<EventModel<X>>, ()>(Some(EventModel::Html(heading_close(level))));
    if stack.len() == 0 {
        assert(anchors_run(footnotes, m1, 0) == (m1, Seq::<Result<Option<EventModel<X>>, ()>>::empty()));
        assert(heading_parts(stack.reverse()) + seq![close] =~= seq![close]);
    } else {
        let rest_stack = stack.drop_last();
        assert(m1 == AnchorsModel { head: HeadModel::Emitting(rest_stack, level), ..m });
        assert(anchors_next(footnotes, m, None).1 == heading_part(stack.last()));
        lemma_anchors_give_back(footnotes, m1, rest_stack, level);
        assert(rest_stack.len() + 1 == stack.len());
        assert(heading_parts(stack.reverse()) =~= seq![heading_part(stack.last())] + heading_parts(rest_stack.reverse()));
        assert(heading_parts(stack.reverse()) + seq![close]
            =~= seq![heading_part(stack.last())] + (heading_parts(rest_stack.reverse()) + seq![close]));
    }
}

/// A heading comes out anchored and whole: its opening with the anchor id (the
/// id given in the source, or the slug of its text), its inner events in their
/// input order (inline formulas rendered), then its closing.
pub proof fn law_heading_keeps_its_events<X>(
    footnotes: bool,
    m: AnchorsModel<X>,
    level: HeadingRank,
    id: Option<Seq<char>>,
    classes: Seq<Seq<char>>,
    attrs: Seq<(Seq<char>, Option<Seq<char>>)>,
    evs: Seq<EventModel<X>>,
    end_level: HeadingRank,
    tail: Seq<EventModel<X>>,
)
    requires
        m.head is Inactive,
        m.code is None,
        m.rest == seq![EventModel::Start(TagModel::Heading { level, id, classes, attrs })] + evs
            + seq![EventModel::End(EndTag::Heading(end_level))] + tail,
        forall|i: int| 0 <= i < evs.len() ==> kept_in_heading(footnotes, #[trigger] evs[i]),
    ensures
        ({
            let anchor = match id {
                Some(given_id) => given_id,
                None => events_slug(evs),
            };
            anchors_run(footnotes, m, evs.len() + 2) == (
                AnchorsModel { rest: tail, ..m },
                seq![Ok(Some(EventModel::Html(heading_open(level, anchor))))] + heading_parts(evs)
                    + seq![Ok(Some(EventModel::Html(heading_close(level))))],
            )
        }),
{
    let start = EventModel::<X>::Start(TagModel::Heading { level, id, classes, attrs });
    let end = EventModel::<X>::End(EndTag::Heading(end_level));
    let etail = seq![end] + tail;
    assert(m.rest[0] == start);
    let mc = AnchorsModel { rest: m.rest.drop_first(), head: HeadModel::Capturing(Seq::empty(), level, id), ..m };
    assert(anchors_next(footnotes, m, None) == anchors_next(footnotes, mc, None));
    assert(mc.rest =~= evs + etail);
    lemma_anchors_collect(footnotes, mc, evs, etail, None);
    assert(Seq::<EventModel<X>>::empty() + evs =~= evs);
    let mf = AnchorsModel { rest: etail, head: HeadModel::Capturing(evs, level, id), ..m };
    assert(anchors_next(footnotes, m, None) == anchors_next(footnotes, mf, None));
    assert(etail[0] == end);
    assert(etail.drop_first() =~= tail);
    let (m1, o) = anchors_next(footnotes, m, None);
    assert(m1 == AnchorsModel { rest: tail, head: HeadModel::Emitting(evs.reverse(), level), ..m });
    lemma_anchors_give_back(footnotes, m1, evs.reverse(), level);
    assert(evs.reverse().reverse() =~= evs);
    let k = evs.len() + 2;
    assert(anchors_run(footnotes, m, k)
        == (anchors_run(footnotes, m1, (k - 1) as nat).0, seq![o] + anchors_run(footnotes, m1, (k - 1) as nat).1));
}

/// The anchor id of a heading made from its events.
pub fn slugify<X>(h_events: &Vec<PageEvent<X>>) -> (r: String)
    ensures
        r@ == events_slug(events_view(h_events@)),
{
    let mut out = String::new();
    let mut last_dash = true;
    let mut i: usize = 0;
    while i < h_events.len()
        invariant
            i <= h_events@.len(),
            (out@, last_dash) == slug_scan(Separators::WhitespaceOrHyphen, heading_text(events_view(h_events@.take(i as int)))),
        decreases h_events@.len() - i,
    {
        let ghost before = (out@, last_dash);
        let ghost evs = events_view(h_events@.take(i as int));
        match &h_events[i] {
            PageEvent::Text(s) | PageEvent::Code(s) | PageEvent::InlineMath(s) | PageEvent::InlineHtml(s) => {
                slug_push_str(Separators::WhitespaceOrHyphen, &mut out, &mut last_dash, s.as_str());
            },
            _ => {},
        }
        proof {
            let evs2 = events_view(h_events@.take(i + 1));
            assert(evs2.drop_last() == evs);
            assert(evs2.last() == h_events@[i as int]@);
            lemma_slug_scan_from(Separators::WhitespaceOrHyphen, heading_text(evs), inline_text(evs2.last()));
            if inline_text(evs2.last()).len() == 0 {
                assert(heading_text(evs) + inline_text(evs2.last()) == heading_text(evs));
            }
        }
        i = i + 1;
    }
    proof {
        assert(h_events@.take(h_events@.len() as int) == h_events@);
    }
    out
}

/// Builds `<hN id="ID"><a href="#ID">`.
fn heading_open_html(level: HeadingRank, id: &str) -> (r: String)
    ensures
        r@ == heading_open(level, id@),
{
    let mut s = String::new();
    s.append("<");
    level.push_tag_name(&mut s);
    s.append(" id=\"");
    s.append(id);
    s.append("\"><a href=\"#");
    s.append(id);
    s.append("\">");
    s
}

/// Builds `</a></hN>`.
fn heading_close_html(level: HeadingRank) -> (r: String)
    ensures
        r@ == heading_close(level),
{
    let mut s = String::new();
    s.append("</a></");
    level.push_tag_name(&mut s);
    s.append(">");
    s
}

/// Builds the superscript link of a footnote reference.
fn footnote_reference_html(name: &str) -> (r: String)
    ensures
        r@ == footnote_reference(name@),
{
    let mut s = String::new();
    s.append("<sup class=\"footnote-reference\" id=\"fr-");
    s.append(name);
    s.append("\"><a href=\"#");
    s.append(name);
    s.append("\">");
    s.append(name);
    s.append("</a></sup>");
    s
}

/// Builds the link back from a footnote definition to its reference.
fn footnote_back_html(name: &str) -> (r: String)
    ensures
        r@ == footnote_back(name@),
{
    let mut s = String::new();
    s.append(" <a href=\"#fr-");
    s.append(name);
    s.append("\">\u{21a9}</a></div>\n");
    s
}

/// The events of a list in reverse order.
pub fn reversed<X>(v: Vec<PageEvent<X>>) -> (r: Vec<PageEvent<X>>)
    ensures
        r@ == v@.reverse(),
{
    let mut v = v;
    let ghost all = v@;
    let mut r: Vec<PageEvent<X>> = Vec::new();
    while v.len() > 0
        invariant
            all == v@ + r@.reverse(),
        decreases v@.len(),
    {
        let ghost before = v@;
        let e = v.pop().unwrap();
        proof {
            assert(before == v@.push(e));
            assert(r@.push(e).reverse() =~= seq![e] + r@.reverse());
            assert(v@ + (seq![e] + r@.reverse()) =~= v@.push(e) + r@.reverse());
        }
        r.push(e);
    }
    proof {
        assert(all =~= r@.reverse());
        assert(r@.reverse().reverse() =~= r@);
        assert(all.reverse() =~= r@);
    }
    r
}

/// The model of the outcome of one step of a rewriter.
pub open spec fn outcome<X>(r: Result<Option<PageEvent<X>>, RenderError>) -> Result<Option<EventModel<X>>, ()> {
    match r {
        Ok(Some(e)) => Ok(Some(e@)),
        Ok(None) => Ok(None),
        Err(_) => Err(()),
    }
}

/// Rewrites the events of a page so that each heading carries an anchor link to
/// itself (`<hN id="ID"><a href="#ID">...</a></hN>`, the id given in the source or
/// made from the heading's text), renders code blocks and formulas, turns the
/// table-of-contents markers into a collapsible block and, when asked to,
/// renders footnote references and back links.
pub struct HeadingAnchors<X> {
    inner: EventStream<X>,
    storage: pulldown_latex::Storage,
    code: Option<String>,
    footnote: Option<String>,
    heading: Head<X>,
    footnotes: bool,
}

impl<X> HeadingAnchors<X> {
    /// The state of the rewriter.
    pub closed spec fn model(&self) -> AnchorsModel<X> {
        AnchorsModel {
            rest: self.inner.rest(),
            code: opt_view(self.code),
            footnote: opt_view(self.footnote),
            head: self.heading@,
        }
    }

    /// Whether the rewriter renders footnotes.
    pub closed spec fn renders_footnotes(&self) -> bool {
        self.footnotes
    }

    /// A rewriter over the given events, outside any code block, footnote or heading.
    pub fn new(inner: EventStream<X>, footnotes: bool) -> (r: Self)
        ensures
            r.model() == (AnchorsModel { rest: inner.rest(), code: None, footnote: None, head: HeadModel::<X>::Inactive }),
            r.renders_footnotes() == footnotes,
    {
        HeadingAnchors {
            inner,
            storage: new_storage(),
            code: None,
            footnote: None,
            heading: Head::Inactive,
            footnotes,
        }
    }

    /// The next rewritten event; `Ok(None)` at the end of the input, `Err` when a
    /// formula or code block failed to render.
    pub fn try_next(&mut self) -> (r: Result<Option<PageEvent<X>>, RenderError>)
        ensures
            final(self).renders_footnotes() == old(self).renders_footnotes(),
            exists|h: Option<Seq<char>>| #[trigger] anchors_next(old(self).renders_footnotes(), old(self).model(), h)
                == (final(self).model(), outcome(r))
                && highlight_fits(h, anchors_code(old(self).renders_footnotes(), old(self).model())),
    {
        let ghost fl = self.footnotes;
        let ghost m0 = self.model();
        let mut head = Head::Inactive;
        std::mem::swap(&mut head, &mut self.heading);
        match head {
            Head::Emitting(mut h_events, h_level) => {
                let ghost stack = h_events@;
                let popped = h_events.pop();
                proof {
                    if stack.len() > 0 {
                        assert(events_view(h_events@) =~= events_view(stack).drop_last());
                        assert(events_view(stack).last() == stack.last()@);
                    }
                }
                match popped {
                    Some(PageEvent::InlineMath(latex)) => {
                        self.heading = Head::Emitting(h_events, h_level);
                        let r = match latex_to_mathml(latex.as_str(), &mut self.storage, DisplayMode::Inline) {
                            Ok(m) => Ok(Some(PageEvent::InlineHtml(m))),
                            Err(e) => Err(e),
                        };
                        proof {
                            assert(anchors_next(fl, m0, None) == (self.model(), outcome(r)));
                            assert(m0 == old(self).model());
                            assert(fl == old(self).renders_footnotes());
                        }
                        r
                    },
                    Some(e) => {
                        self.heading = Head::Emitting(h_events, h_level);
                        let r = Ok(Some(e));
                        proof {
                            assert(anchors_next(fl, m0, None) == (self.model(), outcome(r)));
                            assert(m0 == old(self).model());
                            assert(fl == old(self).renders_footnotes());
                        }
                        r
                    },
                    None => {
                        let r = Ok(Some(PageEvent::Html(heading_close_html(h_level))));
                        proof {
                            assert(anchors_next(fl, m0, None) == (self.model(), outcome(r)));
                            assert(m0 == old(self).model());
                            assert(fl == old(self).renders_footnotes());
                        }
                        r
                    },
                }
            },
            other => {
                self.heading = other;
                assert(self.model() == m0);
                self.next_from_input()
            },
        }
    }

    /// Reads input events until one is given out (outside a heading being emitted).
    fn next_from_input(&mut self) -> (r: Result<Option<PageEvent<X>>, RenderError>)
        requires
            !(old(self).model().head is Emitting),
        ensures
            final(self).renders_footnotes() == old(self).renders_footnotes(),
            exists|h: Option<Seq<char>>| #[trigger] anchors_next(old(self).renders_footnotes(), old(self).model(), h)
                == (final(self).model(), outcome(r))
                && highlight_fits(h, anchors_code(old(self).renders_footnotes(), old(self).model())),
    {
        let ghost fl = self.footnotes;
        let ghost m0 = self.model();
        loop
            invariant
                self.footnotes == fl,
                fl == old(self).renders_footnotes(),
                m0 == old(self).model(),
                !(self.model().head is Emitting),
                forall|h: Option<Seq<char>>| #[trigger] anchors_next(fl, m0, h) == anchors_next(fl, self.model(), h),
                anchors_code(fl, m0) == anchors_code(fl, self.model()),
            decreases self.model().rest.len(),
        {
            let ghost m = self.model();
            let e = match self.inner.next() {
                Some(e) => e,
                None => {
                    let r = Ok(None);
                    proof {
                        assert(anchors_next(fl, m0, None) == (self.model(), outcome(r)));
                    }
                    return r;
                },
            };
            assert(e@ == m.rest[0]);
            let capturing = matches!(self.heading, Head::Capturing(..));
            match e {
                PageEvent::Start(StartTag::CodeBlock(CodeKind::Fenced(lang))) => {
                    self.code = Some(lang);
                    proof {
                        assert forall|h: Option<Seq<char>>| #[trigger] anchors_next(fl, m, h) == anchors_next(fl, self.model(), h) by {}
                    }
                },
                PageEvent::Text(code) if self.code.is_some() => {
                    let r = match highlight_code(code.as_str(), self.code.as_ref().unwrap().as_str()) {
                        Ok(html) => Ok(Some(PageEvent::Html(html))),
                        Err(e) => Err(e),
                    };
                    let ghost h = match r {
                        Ok(Some(PageEvent::Html(ref s))) => Some(s@),
                        _ => None,
                    };
                    proof {
                        assert(anchors_next(fl, m0, h) == (self.model(), outcome(r)));
                    }
                    return r;
                },
                PageEvent::End(EndTag::CodeBlock) if self.code.is_some() => {
                    self.code = None;
                    proof {
                        assert forall|h: Option<Seq<char>>| #[trigger] anchors_next(fl, m, h) == anchors_next(fl, self.model(), h) by {}
                    }
                },
                PageEvent::DisplayMath(latex) => {
                    let r = match latex_to_mathml(latex.as_str(), &mut self.storage, DisplayMode::Block) {
                        Ok(m) => Ok(Some(PageEvent::Html(m))),
                        Err(e) => Err(e),
                    };
                    proof {
                        assert(anchors_next(fl, m0, None) == (self.model(), outcome(r)));
                    }
                    return r;
                },
                PageEvent::InlineMath(latex) if matches!(self.heading, Head::Inactive) => {
                    let r = match latex_to_mathml(latex.as_str(), &mut self.storage, DisplayMode::Inline) {
                        Ok(m) => Ok(Some(PageEvent::InlineHtml(m))),
                        Err(e) => Err(e),
                    };
                    proof {
                        assert(anchors_next(fl, m0, None) == (self.model(), outcome(r)));
                    }
                    return r;
                },
                PageEvent::FootnoteReference(name) if self.footnotes => {
                    let r = Ok(Some(PageEvent::InlineHtml(footnote_reference_html(name.as_str()))));
                    proof {
                        assert(anchors_next(fl, m0, None) == (self.model(), outcome(r)));
                    }
                    return r;
                },
                PageEvent::Start(StartTag::FootnoteDefinition(name)) if self.footnotes => {
                    self.footnote = Some(name.clone());
                    let r = Ok(Some(PageEvent::Start(StartTag::FootnoteDefinition(name))));
                    proof {
                        assert(anchors_next(fl, m0, None) == (self.model(), outcome(r)));
                    }
                    return r;
                },
                PageEvent::End(EndTag::FootnoteDefinition) if self.footnotes && self.footnote.is_some() => {
                    let mut name: Option<String> = None;
                    std::mem::swap(&mut name, &mut self.footnote);
                    let r = Ok(Some(PageEvent::Html(footnote_back_html(name.unwrap().as_str()))));
                    proof {
                        assert(anchors_next(fl, m0, None) == (self.model(), outcome(r)));
                    }
                    return r;
                },
                PageEvent::Html(s) if crate::syntex::same_text(s.as_str(), "<!--toc:start-->\n") => {
                    let r = if self.footnotes {
                        Ok(Some(PageEvent::Html("<details class=\"toc\"><summary>Contents</summary>".to_owned())))
                    } else {
                        Ok(Some(PageEvent::Html("<details><summary>Contents</summary>".to_owned())))
                    };
                    proof {
                        assert(anchors_next(fl, m0, None) == (self.model(), outcome(r)));
                    }
                    return r;
                },
                PageEvent::Html(s) if crate::syntex::same_text(s.as_str(), "<!--toc:end-->\n") => {
                    let r = Ok(Some(PageEvent::Html("</details>".to_owned())));
                    proof {
                        assert(anchors_next(fl, m0, None) == (self.model(), outcome(r)));
                    }
                    return r;
                },
                PageEvent::Start(StartTag::Heading { level, id, .. }) => {
                    self.heading = Head::Capturing(Vec::new(), level, id);
                    proof {
                        assert(events_view(Seq::<PageEvent<X>>::empty()) =~= Seq::<EventModel<X>>::empty());
                        assert forall|h: Option<Seq<char>>| #[trigger] anchors_next(fl, m, h) == anchors_next(fl, self.model(), h) by {}
                    }
                },
                PageEvent::End(EndTag::Heading(_)) if capturing => {
                    let mut head = Head::Inactive;
                    std::mem::swap(&mut head, &mut self.heading);
                    match head {
                        Head::Capturing(mut h_events, h_level, id) => {
                            let id = match id {
                                Some(id) => id,
                                None => slugify(&h_events),
                            };
                            let ghost evs = events_view(h_events@);
                            let h_events = reversed(h_events);
                            proof {
                                assert(events_view(h_events@) =~= evs.reverse());
                            }
                            self.heading = Head::Emitting(h_events, h_level);
                            let r = Ok(Some(PageEvent::Html(heading_open_html(h_level, id.as_str()))));
                            proof {
                                assert(anchors_next(fl, m0, None) == (self.model(), outcome(r)));
                            }
                            return r;
                        },
                        _ => {
                            proof {
                                assert(false);
                            }
                            return Ok(None);
                        },
                    }
                },
                other => {
                    if capturing {
                        let mut head = Head::Inactive;
                        std::mem::swap(&mut head, &mut self.heading);
                        match head {
                            Head::Capturing(mut h_events, h_level, id) => {
                                let ghost evs = events_view(h_events@);
                                let ghost o = other@;
                                h_events.push(other);
                                proof {
                                    assert(events_view(h_events@) == evs.push(o));
                                }
                                self.heading = Head::Capturing(h_events, h_level, id);
                                proof {
                                    assert forall|h: Option<Seq<char>>| #[trigger] anchors_next(fl, m, h) == anchors_next(fl, self.model(), h) by {}
                                }
                            },
                            _ => {
                                proof {
                                    assert(false);
                                }
                            },
                        }
                    } else {
                        let r = Ok(Some(other));
                        proof {
                            assert(anchors_next(fl, m0, None) == (self.model(), outcome(r)));
                        }
                        return r;
                    }
                },
            }
        }
    }
}

/// The event an outcome gives out, `None` for the end of the input or an error.
pub open spec fn given_out<X>(o: Result<Option<EventModel<X>>, ()>) -> Option<EventModel<X>> {
    match o {
        Ok(e) => e,
        Err(_) => None,
    }
}

/// Rewrites a page's events with an anchor link in every heading, highlighted
/// code and MathML formulas; reading stops (`None`) when a formula or code block
/// fails to render.
pub struct AnchorIterator<X> {
    rewriter: HeadingAnchors<X>,
}

impl<X> AnchorIterator<X> {
    /// The rewriter leaves footnotes alone.
    pub closed spec fn well_formed(&self) -> bool {
        !self.rewriter.renders_footnotes()
    }

    /// The state of the rewriter.
    pub closed spec fn model(&self) -> AnchorsModel<X> {
        self.rewriter.model()
    }

    /// A rewriter over the given events.
    pub fn new(inner: EventStream<X>) -> (r: Self)
        ensures
            r.well_formed(),
            r.model() == (AnchorsModel { rest: inner.rest(), code: None, footnote: None, head: HeadModel::<X>::Inactive }),
    {
        AnchorIterator { rewriter: HeadingAnchors::new(inner, false) }
    }

    /// The next rewritten event.
    pub fn next(&mut self) -> (r: Option<PageEvent<X>>)
        requires
            old(self).well_formed(),
        ensures
            final(self).well_formed(),
            exists|h: Option<Seq<char>>| {
                let (m, o) = #[trigger] anchors_next(false, old(self).model(), h);
                &&& final(self).model() == m
                &&& crate::syntex::opt_event(r) == given_out(o)
                &&& highlight_fits(h, anchors_code(false, old(self).model()))
            },
    {
        match self.rewriter.try_next() {
            Ok(e) => e,
            Err(_) => None,
        }
    }
}

} // verus!
