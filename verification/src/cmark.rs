use vstd::prelude::*;

verus! {

#[verifier::external_type_specification]
#[verifier::external_body]
pub struct ExCmarkEvent<'a>(pulldown_cmark::Event<'a>);

#[verifier::external_type_specification]
#[verifier::external_body]
pub struct ExCmarkTag<'a>(pulldown_cmark::Tag<'a>);

#[verifier::external_type_specification]
#[verifier::external_body]
pub struct ExCmarkTagEnd(pulldown_cmark::TagEnd);

#[verifier::external_type_specification]
#[verifier::external_body]
pub struct ExCmarkHeadingLevel(pulldown_cmark::HeadingLevel);

#[verifier::external_type_specification]
#[verifier::external_body]
pub struct ExCmarkMetadataBlockKind(pulldown_cmark::MetadataBlockKind);

#[verifier::external_type_specification]
#[verifier::external_body]
pub struct ExCowStr<'a>(pulldown_cmark::CowStr<'a>);

/// A pulldown-cmark event the page transformations do not look at, carried
/// through unchanged.
#[derive(Debug)]
pub struct OtherEvent {
    pub event: pulldown_cmark::Event<'static>,
}

} // verus!
