use vstd::prelude::*;

verus! {

/// The level of a Markdown heading, `#` to `######`.
#[derive(Clone, Copy, PartialEq, Eq, Debug)]
pub enum HeadingRank {
    H1,
    H2,
    H3,
    H4,
    H5,
    H6,
}

impl HeadingRank {
    /// The number of the level, 1 to 6.
    pub open spec fn number(self) -> u8 {
        match self {
            HeadingRank::H1 => 1,
            HeadingRank::H2 => 2,
            HeadingRank::H3 => 3,
            HeadingRank::H4 => 4,
            HeadingRank::H5 => 5,
            HeadingRank::H6 => 6,
        }
    }

    /// The HTML element name of the level, `h1` to `h6`.
    pub open spec fn tag_name(self) -> Seq<char> {
        seq!['h', ((self.number() + 48) as u32) as char]
    }

    /// Appends the HTML element name of the level (`h1` to `h6`) to `out`.
    pub fn push_tag_name(&self, out: &mut String)
        ensures
            final(out)@ == old(out)@ + self.tag_name(),
    {
        crate::chars::push_char(out, 'h');
        let d = match self {
            HeadingRank::H1 => '1',
            HeadingRank::H2 => '2',
            HeadingRank::H3 => '3',
            HeadingRank::H4 => '4',
            HeadingRank::H5 => '5',
            HeadingRank::H6 => '6',
        };
        crate::chars::push_char(out, d);
    }
}

/// How a code block was written.
#[derive(Clone, PartialEq, Eq, Debug)]
pub enum CodeKind {
    Indented,
    /// A fenced block, with the info string after the opening fence.
    Fenced(String),
}

/// How a metadata block was delimited.
#[derive(Clone, Copy, PartialEq, Eq, Debug)]
pub enum MetadataKind {
    /// Delimited by `---` lines.
    YamlStyle,
    /// Delimited by `+++` lines.
    PlusesStyle,
}

/// The start of an element, for the elements the page transformations look at;
/// every other start tag is carried as `Other`.
#[derive(Clone, Debug)]
pub enum StartTag<X> {
    CodeBlock(CodeKind),
    Heading {
        level: HeadingRank,
        id: Option<String>,
        classes: Vec<String>,
        attrs: Vec<(String, Option<String>)>,
    },
    FootnoteDefinition(String),
    MetadataBlock(MetadataKind),
    Other(X),
}

/// The end of an element; every end tag not listed is carried as `Other`.
#[derive(Clone, Debug)]
pub enum EndTag<X> {
    CodeBlock,
    Heading(HeadingRank),
    FootnoteDefinition,
    MetadataBlock(MetadataKind),
    Other(X),
}

/// One event of a parsed Markdown document. `Html` is an HTML block line taken
/// unchanged from the source; every event the transformations do not look at is
/// carried as `Other`.
#[derive(Clone, Debug)]
pub enum PageEvent<X> {
    Start(StartTag<X>),
    End(EndTag<X>),
    Text(String),
    Code(String),
    InlineMath(String),
    DisplayMath(String),
    Html(String),
    InlineHtml(String),
    FootnoteReference(String),
    Other(X),
}

/// The value of a start tag, with strings as character sequences.
pub enum TagModel<X> {
    CodeBlock(Option<Seq<char>>),
    Heading {
        level: HeadingRank,
        id: Option<Seq<char>>,
        classes: Seq<Seq<char>>,
        attrs: Seq<(Seq<char>, Option<Seq<char>>)>,
    },
    FootnoteDefinition(Seq<char>),
    MetadataBlock(MetadataKind),
    Other(X),
}

/// The value of an event, with strings as character sequences.
pub enum EventModel<X> {
    Start(TagModel<X>),
    End(EndTag<X>),
    Text(Seq<char>),
    Code(Seq<char>),
    InlineMath(Seq<char>),
    DisplayMath(Seq<char>),
    Html(Seq<char>),
    InlineHtml(Seq<char>),
    FootnoteReference(Seq<char>),
    Other(X),
}

/// The characters of an optional string.
pub open spec fn opt_view(s: Option<String>) -> Option<Seq<char>> {
    match s {
        Some(s) => Some(s@),
        None => None,
    }
}

/// The characters of each string of a list.
pub open spec fn strings_view(v: Seq<String>) -> Seq<Seq<char>> {
    v.map_values(|s: String| s@)
}

/// The characters of each attribute of a heading.
pub open spec fn attrs_view(v: Seq<(String, Option<String>)>) -> Seq<(Seq<char>, Option<Seq<char>>)> {
    v.map_values(|a: (String, Option<String>)| (a.0@, opt_view(a.1)))
}

impl<X> View for StartTag<X> {
    type V = TagModel<X>;

    open spec fn view(&self) -> TagModel<X> {
        match self {
            StartTag::CodeBlock(CodeKind::Indented) => TagModel::CodeBlock(None),
            StartTag::CodeBlock(CodeKind::Fenced(lang)) => TagModel::CodeBlock(Some(lang@)),
            StartTag::Heading { level, id, classes, attrs } => TagModel::Heading {
                level: *level,
                id: opt_view(*id),
                classes: strings_view(classes@),
                attrs: attrs_view(attrs@),
            },
            StartTag::FootnoteDefinition(name) => TagModel::FootnoteDefinition(name@),
            StartTag::MetadataBlock(kind) => TagModel::MetadataBlock(*kind),
            StartTag::Other(x) => TagModel::Other(*x),
        }
    }
}

impl<X> View for PageEvent<X> {
    type V = EventModel<X>;

    open spec fn view(&self) -> EventModel<X> {
        match self {
            PageEvent::Start(tag) => EventModel::Start(tag@),
            PageEvent::End(end) => EventModel::End(*end),
            PageEvent::Text(s) => EventModel::Text(s@),
            PageEvent::Code(s) => EventModel::Code(s@),
            PageEvent::InlineMath(s) => EventModel::InlineMath(s@),
            PageEvent::DisplayMath(s) => EventModel::DisplayMath(s@),
            PageEvent::Html(s) => EventModel::Html(s@),
            PageEvent::InlineHtml(s) => EventModel::InlineHtml(s@),
            PageEvent::FootnoteReference(s) => EventModel::FootnoteReference(s@),
            PageEvent::Other(x) => EventModel::Other(*x),
        }
    }
}

/// The models of a list of events.
pub open spec fn events_view<X>(v: Seq<PageEvent<X>>) -> Seq<EventModel<X>> {
    v.map_values(|e: PageEvent<X>| e@)
}

/// The text an event contributes to a heading's text: that of text, inline code,
/// inline math and inline HTML events; nothing for other events.
pub open spec fn inline_text<X>(e: EventModel<X>) -> Seq<char> {
    match e {
        EventModel::Text(s) => s,
        EventModel::Code(s) => s,
        EventModel::InlineMath(s) => s,
        EventModel::InlineHtml(s) => s,
        _ => Seq::empty(),
    }
}

/// The text of a heading: the inline text of its events, in order.
pub open spec fn heading_text<X>(events: Seq<EventModel<X>>) -> Seq<char>
    decreases events.len(),
{
    if events.len() == 0 {
        Seq::empty()
    } else {
        heading_text(events.drop_last()) + inline_text(events.last())
    }
}

/// A stack of events, in the order it pops them: the last element first.
pub open spec fn popping_order<A>(stack: Seq<A>) -> Seq<A> {
    stack.reverse()
}

/// The events of a document still to be read, first to last.
pub struct EventStream<X> {
    /// The events not yet read, last one first.
    pending: Vec<PageEvent<X>>,
}

impl<X> EventStream<X> {
    /// The models of the events still to be read, in reading order.
    pub closed spec fn rest(&self) -> Seq<EventModel<X>> {
        events_view(self.pending@.reverse())
    }

    /// A stream over the given events, read first to last.
    pub fn new(events: Vec<PageEvent<X>>) -> (r: Self)
        ensures
            r.rest() == events_view(events@),
    {
        let mut events = events;
        let mut pending: Vec<PageEvent<X>> = Vec::new();
        let ghost all = events@;
        while events.len() > 0
            invariant
                all == events@ + pending@.reverse(),
            decreases events@.len(),
        {
            let ghost before = events@;
            let e = events.pop().unwrap();
            proof {
                assert(before == events@.push(e));
                assert(pending@.push(e).reverse() == seq![e] + pending@.reverse());
                assert(events@ + (seq![e] + pending@.reverse()) == events@.push(e) + pending@.reverse());
            }
            pending.push(e);
        }
        proof {
            assert(all == pending@.reverse());
        }
        EventStream { pending }
    }

    /// The events still to be read, in reading order.
    pub fn into_events(self) -> (r: Vec<PageEvent<X>>)
        ensures
            events_view(r@) == self.rest(),
    {
        let mut pending = self.pending;
        let ghost all = pending@.reverse();
        let mut out: Vec<PageEvent<X>> = Vec::new();
        while pending.len() > 0
            invariant
                all == out@ + pending@.reverse(),
            decreases pending@.len(),
        {
            let ghost before = pending@;
            let e = pending.pop().unwrap();
            proof {
                assert(before == pending@.push(e));
                assert(before.reverse() =~= seq![e] + pending@.reverse());
                assert(out@.push(e) + pending@.reverse() =~= out@ + (seq![e] + pending@.reverse()));
            }
            out.push(e);
        }
        proof {
            assert(all =~= out@);
        }
        out
    }

    /// Reads the next event, or `None` at the end.
    pub fn next(&mut self) -> (r: Option<PageEvent<X>>)
        ensures
            old(self).rest().len() == 0 ==> r is None && final(self).rest() == old(self).rest(),
            old(self).rest().len() > 0 ==> (r matches Some(e) && e@ == old(self).rest()[0]),
            old(self).rest().len() > 0 ==> final(self).rest() == old(self).rest().drop_first(),
    {
        let ghost before = self.pending@;
        let r = self.pending.pop();
        proof {
            if before.len() > 0 {
                assert(before == self.pending@.push(r.unwrap()));
                assert(before.reverse() == seq![r.unwrap()] + self.pending@.reverse());
                assert(events_view(before.reverse()).drop_first() == events_view(self.pending@.reverse()));
            }
        }
        r
    }
}

} // verus!
