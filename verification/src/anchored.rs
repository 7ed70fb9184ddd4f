use vstd::prelude::*;
use crate::anchor::{anchors_code, anchors_next, events_slug, outcome, slugify, AnchorsModel, HeadModel, HeadingAnchors};
use crate::events::{events_view, PageEvent, EventStream};
use crate::syntex::{highlight_fits, RenderError};

verus! {

/// Rewrites a page's events with an anchor link in every heading, highlighted
/// code, MathML formulas, footnote references as superscript links and a link
/// back at the end of each footnote definition. A formula or code block that
/// fails to render is an error.
pub struct AnchoredIterator<X> {
    rewriter: HeadingAnchors<X>,
}

impl<X> AnchoredIterator<X> {
    /// The rewriter renders footnotes.
    pub closed spec fn well_formed(&self) -> bool {
        self.rewriter.renders_footnotes()
    }

    /// The state of the rewriter.
    pub closed spec fn model(&self) -> AnchorsModel<X> {
        self.rewriter.model()
    }

    /// A rewriter over the given events.
    pub fn new(inner: EventStream<X>) -> (r: Self)
        ensures
            r.well_formed(),
            r.model() == (AnchorsModel { rest: inner.rest(), code: None, footnote: None, head: HeadModel::<X>::Inactive }),
    {
        AnchoredIterator { rewriter: HeadingAnchors::new(inner, true) }
    }

    /// The next rewritten event; `Ok(None)` at the end, `Err` when a formula or
    /// code block fails to render.
    pub fn next(&mut self) -> (r: Result<Option<PageEvent<X>>, RenderError>)
        requires
            old(self).well_formed(),
        ensures
            final(self).well_formed(),
            exists|h: Option<Seq<char>>| #[trigger] anchors_next(true, old(self).model(), h)
                == (final(self).model(), outcome(r))
                && highlight_fits(h, anchors_code(true, old(self).model())),
    {
        self.rewriter.try_next()
    }
}

/// The anchor id of a heading made from its events (see `events_slug`).
pub fn slugify_h<X>(h_events: &Vec<PageEvent<X>>) -> (r: String)
    ensures
        r@ == events_slug(events_view(h_events@)),
{
    slugify(h_events)
}

} // verus!
