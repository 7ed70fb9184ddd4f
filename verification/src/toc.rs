use vstd::prelude::*;
use crate::events::{
    events_view, heading_text, inline_text, opt_view, strings_view, attrs_view, CodeKind, PageEvent,
    EventModel, EventStream, HeadingRank, StartTag, EndTag, TagModel,
};
use crate::syntex::{highlight_code, highlight_fits, latex_to_mathml, mathml_output, new_storage, opt_event, DisplayMode};
use crate::anchor::reversed;
use crate::strings::{decimal, push_decimal, lemma_decimal_nonempty, lemma_decimal_injective};
use crate::utils::{slug_push_str, slug_scan, lemma_slug_scan_from, Separators};
use crate::chars::push_char;

verus! {

// Heading levels

/// A range of heading levels, `min..=max` with `1 <= min <= max <= 6`, kept in
/// one byte: the minimum in the high nibble, the maximum in the low nibble.
#[derive(Clone, Copy)]
pub struct Levels {
    packed: u8,
}

impl Levels {
    #[verifier::type_invariant]
    spec fn well_formed(self) -> bool {
        1 <= (self.packed >> 4) <= (self.packed & 0x0F) <= 6
    }

    /// The lowest level in the range.
    pub closed spec fn min(self) -> u8 {
        self.packed >> 4
    }

    /// The highest level in the range.
    pub closed spec fn max(self) -> u8 {
        self.packed & 0x0F
    }

    /// The range `min..=max`, or `None` unless `1 <= min <= max <= 6`.
    pub fn new(min: u8, max: u8) -> (r: Option<Self>)
        ensures
            r is Some <==> (1 <= min <= 6 && min <= max <= 6),
            r matches Some(l) ==> l.min() == min && l.max() == max,
    {
        if 1 <= min && min <= 6 && min <= max && max <= 6 {
            let packed: u8 = min << 4 | max;
            assert((min << 4 | max) >> 4 == min && (min << 4 | max) & 0x0F == max) by (bit_vector)
                requires
                    min <= 6,
                    max <= 6,
            ;
            Some(Levels { packed })
        } else {
            None
        }
    }

    /// The lowest level in the range.
    pub fn min_level(&self) -> (r: u8)
        ensures
            r == self.min(),
            1 <= r <= self.max() <= 6,
    {
        proof {
            use_type_invariant(self);
        }
        self.packed >> 4
    }

    /// The highest level in the range.
    pub fn max_level(&self) -> (r: u8)
        ensures
            r == self.max(),
            1 <= self.min() <= r <= 6,
    {
        proof {
            use_type_invariant(self);
        }
        self.packed & 0x0F
    }

    /// The number of a heading level, 1 to 6.
    pub fn level_to_u8(level: HeadingRank) -> (r: u8)
        ensures
            r == level.number(),
    {
        match level {
            HeadingRank::H1 => 1,
            HeadingRank::H2 => 2,
            HeadingRank::H3 => 3,
            HeadingRank::H4 => 4,
            HeadingRank::H5 => 5,
            HeadingRank::H6 => 6,
        }
    }

    /// Whether a heading level lies in the range.
    pub fn level_enabled(&self, level: HeadingRank) -> (r: bool)
        ensures
            r == (self.min() <= level.number() <= self.max()),
    {
        let level_num = Self::level_to_u8(level);
        self.min_level() <= level_num && level_num <= self.max_level()
    }
}

// Slugger

/// What `xxhash_rust::xxh32::xxh32` returns for the bytes and the seed.
pub uninterp spec fn xxh32_digest(input: Seq<u8>, seed: u32) -> u32;

/// `xxhash_rust::xxh32::xxh32`: the 32-bit xxHash of the bytes with the seed,
/// named `xxh32_digest`.
#[verifier::external_body]
fn xxh32(input: &[u8], seed: u32) -> (r: u32)
    ensures
        r == xxh32_digest(input@, seed),
{
    xxhash_rust::xxh32::xxh32(input, seed)
}

/// A `u32` with the order of its four bytes reversed.
pub open spec fn byte_swapped(x: u32) -> u32 {
    ((x & 0xff) << 24) | ((x & 0xff00) << 8) | ((x >> 8) & 0xff00) | (x >> 24)
}

/// `u32::to_le`: the number itself on a little-endian machine, its bytes swapped
/// on a big-endian one. Which of the two holds is not stated.
#[verifier::external_body]
fn to_le(x: u32) -> (r: u32)
    ensures
        r == x || r == byte_swapped(x),
{
    x.to_le()
}

/// The slug of a heading text: alphanumeric characters kept (ASCII letters
/// lowercased), a dash for whitespace after them, everything else dropped.
pub open spec fn heading_slug(s: Seq<char>) -> Seq<char> {
    slug_scan(Separators::Whitespace, s).0
}

/// The bucket of a slug among `n` counters, given the hash as the machine reads
/// it (`le`: as is; otherwise with its bytes swapped).
pub open spec fn bucket(base: Seq<char>, le: bool, n: nat) -> nat {
    let h = xxh32_digest(vstd::utf8::encode_utf8(base), 0);
    (if le { h } else { byte_swapped(h) }) as nat % n
}

/// A slug numbered by how often its bucket was used before: the slug itself the
/// first time, then `slug_1`, `slug_2`, ...
pub open spec fn numbered(base: Seq<char>, count: u8) -> Seq<char> {
    if count == 0 {
        base
    } else {
        base + seq!['_'] + decimal(count as nat)
    }
}

/// The count after one more use (wrapping from 255 to 0).
pub open spec fn bumped(count: u8) -> u8 {
    if count == 255 {
        0
    } else {
        (count + 1) as u8
    }
}

/// `counts` becomes `counts2` and `base` becomes `slug` when the slug is numbered
/// in bucket `key`.
pub open spec fn slugged_in(counts: Seq<u8>, counts2: Seq<u8>, base: Seq<char>, key: nat, slug: Seq<char>) -> bool {
    &&& key < counts.len()
    &&& slug == numbered(base, counts[key as int])
    &&& counts2 == counts.update(key as int, bumped(counts[key as int]))
}

/// One slug numbered at two different counts gives two different texts.
pub proof fn law_numbered_distinct(base: Seq<char>, a: u8, b: u8)
    requires
        a != b,
    ensures
        numbered(base, a) != numbered(base, b),
{
    if a == 0 {
        lemma_decimal_nonempty(b as nat);
        assert(numbered(base, b).len() > base.len());
    } else if b == 0 {
        lemma_decimal_nonempty(a as nat);
        assert(numbered(base, a).len() > base.len());
    } else if numbered(base, a) == numbered(base, b) {
        let k = base.len() + 1int;
        assert(numbered(base, a).skip(k) == decimal(a as nat));
        assert(numbered(base, b).skip(k) == decimal(b as nat));
        lemma_decimal_injective(a as nat, b as nat);
    }
}

/// Slugging one text twice in a row in the same bucket gives two different ids,
/// unless the bucket's counter wraps around between them (after 255 uses).
pub proof fn law_repeated_slug_differs(
    counts0: Seq<u8>,
    counts1: Seq<u8>,
    counts2: Seq<u8>,
    base: Seq<char>,
    key: nat,
    first: Seq<char>,
    second: Seq<char>,
)
    requires
        slugged_in(counts0, counts1, base, key, first),
        slugged_in(counts1, counts2, base, key, second),
        counts0[key as int] != 255,
    ensures
        first != second,
{
    law_numbered_distinct(base, counts0[key as int], counts1[key as int]);
}

/// The text holds no `_`.
pub open spec fn no_underscore(s: Seq<char>) -> bool {
    forall|i: int| 0 <= i < s.len() ==> s[i] != '_'
}

/// A heading slug holds no `_`.
pub proof fn lemma_heading_slug_no_underscore(s: Seq<char>)
    ensures
        no_underscore(heading_slug(s)),
{
    crate::utils::lemma_slug_scan_shaped(Separators::Whitespace, s);
}

/// Two slugs without `_` numbered at counts give the same text only for the
/// same slug and count.
pub proof fn lemma_numbered_injective(b1: Seq<char>, c1: u8, b2: Seq<char>, c2: u8)
    requires
        no_underscore(b1),
        no_underscore(b2),
        numbered(b1, c1) == numbered(b2, c2),
    ensures
        b1 == b2,
        c1 == c2,
{
    let t = numbered(b1, c1);
    if c1 == 0 && c2 != 0 {
        assert(t[b2.len() as int] == '_');
    } else if c1 != 0 && c2 == 0 {
        assert(t[b1.len() as int] == '_');
    } else if c1 != 0 && c2 != 0 {
        if b1.len() < b2.len() {
            assert(t[b1.len() as int] == '_');
            assert(t[b1.len() as int] == b2[b1.len() as int]);
        } else if b2.len() < b1.len() {
            assert(t[b2.len() as int] == '_');
            assert(t[b2.len() as int] == b1[b2.len() as int]);
        } else {
            assert(b1 == t.take(b1.len() as int));
            assert(b2 == t.take(b2.len() as int));
            if c1 != c2 {
                law_numbered_distinct(b1, c1, c2);
            }
        }
    }
}

/// Slug `s` was given out for slug `base` at its bucket's `j`-th use.
pub open spec fn given_as(s: Seq<char>, base: Seq<char>, j: nat, le: bool, n: nat, uses: Seq<nat>) -> bool {
    &&& no_underscore(base)
    &&& j < uses[bucket(base, le, n) as int]
    &&& s == numbered(base, (j % 256) as u8)
}

/// Gives unique anchor ids to headings: slugs that fall in the same of `N`
/// buckets get a counter suffix. The byte order the hash is read in is fixed when
/// the slugger is made.
pub struct Slugger<const N: usize> {
    counts: Vec<u8>,
    little_endian: bool,
    uses: Ghost<Seq<nat>>,
    issued: Ghost<Set<Seq<char>>>,
}

impl<const N: usize> Slugger<N> {
    /// One counter per bucket, each the bucket's number of uses modulo 256; every
    /// slug given out was numbered at an earlier use of its bucket.
    pub closed spec fn well_formed(self) -> bool {
        &&& self.counts@.len() == N
        &&& self.uses@.len() == N
        &&& forall|k: int| 0 <= k < N ==> self.counts@[k] as nat == #[trigger] self.uses@[k] % 256
        &&& forall|s: Seq<char>| #[trigger] self.issued@.contains(s) ==> exists|b: Seq<char>, j: nat|
            #[trigger] given_as(s, b, j, self.little_endian, N as nat, self.uses@)
    }

    /// How often each bucket was used (modulo 256).
    pub closed spec fn counts(self) -> Seq<u8> {
        self.counts@
    }

    /// How often each bucket was used.
    pub closed spec fn uses(self) -> Seq<nat> {
        self.uses@
    }

    /// The slugs given out so far.
    pub closed spec fn issued(self) -> Set<Seq<char>> {
        self.issued@
    }

    /// Whether the hash is read as is (little-endian) or with its bytes swapped.
    pub closed spec fn little_endian(self) -> bool {
        self.little_endian
    }

    /// A slugger with every bucket unused, reading hashes in the machine's byte order.
    pub fn new() -> (r: Self)
        ensures
            r.well_formed(),
            r.counts() == Seq::new(N as nat, |i: int| 0u8),
            r.uses() == Seq::new(N as nat, |i: int| 0nat),
            r.issued() == Set::<Seq<char>>::empty(),
    {
        let mut counts: Vec<u8> = Vec::new();
        let mut i: usize = 0;
        while i < N
            invariant
                i <= N,
                counts@ == Seq::new(i as nat, |j: int| 0u8),
            decreases N - i,
        {
            counts.push(0);
            i = i + 1;
        }
        let little_endian = to_le(1) == 1;
        Slugger {
            counts,
            little_endian,
            uses: Ghost(Seq::new(N as nat, |i: int| 0nat)),
            issued: Ghost(Set::empty()),
        }
    }

    /// The number of buckets.
    pub fn buckets(&self) -> (r: usize)
        requires
            self.well_formed(),
        ensures
            r == N,
            r == self.counts().len(),
    {
        N
    }

    /// Numbers `base` by the use count of bucket `key`, and counts the use.
    fn slug_in_bucket(&mut self, base: String, key: usize) -> (r: String)
        requires
            old(self).counts@.len() == N,
            key < old(self).counts@.len(),
        ensures
            final(self).counts@.len() == N,
            final(self).little_endian == old(self).little_endian,
            final(self).uses == old(self).uses,
            final(self).issued == old(self).issued,
            r@ == numbered(base@, old(self).counts()[key as int]),
            final(self).counts() == old(self).counts().update(key as int, bumped(old(self).counts()[key as int])),
    {
        let c = self.counts[key];
        let slug = if c != 0 {
            let mut s = base;
            push_char(&mut s, '_');
            push_decimal(&mut s, c);
            proof {
                assert(s@ == base@ + seq!['_'] + decimal(c as nat));
            }
            s
        } else {
            base
        };
        self.counts.set(key, c.wrapping_add(1));
        slug
    }

    /// A unique anchor id for a heading text: its slug, numbered by how often the
    /// slug's hash bucket was used before. Ids given out by one slugger differ from
    /// each other as long as no bucket has been used 256 times.
    pub fn slug(&mut self, input: &str) -> (r: String)
        requires
            N > 0,
            old(self).well_formed(),
        ensures
            final(self).well_formed(),
            final(self).little_endian() == old(self).little_endian(),
            slugged_in(
                old(self).counts(),
                final(self).counts(),
                heading_slug(input@),
                bucket(heading_slug(input@), old(self).little_endian(), N as nat),
                r@,
            ),
            final(self).uses() == old(self).uses().update(
                bucket(heading_slug(input@), old(self).little_endian(), N as nat) as int,
                old(self).uses()[bucket(heading_slug(input@), old(self).little_endian(), N as nat) as int] + 1,
            ),
            final(self).issued() == old(self).issued().insert(r@),
            old(self).uses()[bucket(heading_slug(input@), old(self).little_endian(), N as nat) as int] < 256
                ==> !old(self).issued().contains(r@),
    {
        let base = slugify(input);
        let digest = xxh32(base.as_str().as_bytes(), 0);
        let hash = (if self.little_endian { digest } else { swap_bytes(digest) }) as usize;
        let key = hash % N;
        let ghost le = self.little_endian;
        let ghost b = base@;
        assert(key == bucket(b, le, N as nat));
        proof {
            lemma_heading_slug_no_underscore(input@);
        }
        let ghost old_uses = self.uses@;
        let ghost old_issued = self.issued@;
        let ghost old_counts = self.counts@;
        let r = self.slug_in_bucket(base, key);
        let ghost new_uses = old_uses.update(key as int, old_uses[key as int] + 1);
        proof {
            let u = old_uses[key as int];
            let c = old_counts[key as int];
            assert(c as nat == u % 256);
            assert(bumped(c) as nat == (u + 1) % 256) by {
                if c == 255 {
                    assert(u % 256 == 255);
                    assert((u + 1) % 256 == 0) by (nonlinear_arith)
                        requires
                            u % 256 == 255;
                } else {
                    assert((u + 1) % 256 == u % 256 + 1) by (nonlinear_arith)
                        requires
                            u % 256 < 255;
                }
            }
            assert((u % 256) as u8 == c);
            if u < 256 && old_issued.contains(r@) {
                let (b2, j) = choose|b2: Seq<char>, j: nat| #[trigger] given_as(r@, b2, j, le, N as nat, old_uses);
                lemma_numbered_injective(b, c, b2, (j % 256) as u8);
                assert(j % 256 == j);
                assert(false);
            }
        }
        self.uses = Ghost(new_uses);
        self.issued = Ghost(old_issued.insert(r@));
        proof {
            assert forall|k: int| 0 <= k < N implies self.counts@[k] as nat == #[trigger] self.uses@[k] % 256 by {
                if k != key {
                    assert(self.counts@[k] == old_counts[k]);
                }
            }
            assert(self.little_endian == le);
            assert forall|s: Seq<char>| #[trigger] self.issued@.contains(s) implies exists|b2: Seq<char>, j: nat|
                #[trigger] given_as(s, b2, j, self.little_endian, N as nat, self.uses@) by {
                if s == r@ {
                    assert(given_as(s, b, old_uses[key as int], self.little_endian, N as nat, self.uses@));
                } else {
                    assert(old_issued.contains(s));
                    let (b2, j) = choose|b2: Seq<char>, j: nat| #[trigger] given_as(s, b2, j, le, N as nat, old_uses);
                    assert(given_as(s, b2, j, self.little_endian, N as nat, self.uses@));
                }
            }
        }
        r
    }
}

/// The number with its four bytes reversed: what `u32::to_le` gives on a
/// big-endian machine.
fn swap_bytes(x: u32) -> (r: u32)
    ensures
        r == byte_swapped(x),
{
    ((x & 0xff) << 24) | ((x & 0xff00) << 8) | ((x >> 8) & 0xff00) | (x >> 24)
}

impl<const N: usize> Default for Slugger<N> {
    fn default() -> (r: Self)
        ensures
            r.well_formed(),
            r.counts() == Seq::new(N as nat, |i: int| 0u8),
            r.uses() == Seq::new(N as nat, |i: int| 0nat),
            r.issued() == Set::<Seq<char>>::empty(),
    {
        Self::new()
    }
}

/// The slug of a heading text (see `heading_slug`).
fn slugify(s: &str) -> (r: String)
    ensures
        r@ == heading_slug(s@),
{
    let mut out = String::new();
    let mut last_dash = true;
    proof {
        assert(Seq::<char>::empty() + s@ == s@);
        lemma_slug_scan_from(Separators::Whitespace, Seq::empty(), s@);
    }
    slug_push_str(Separators::Whitespace, &mut out, &mut last_dash, s);
    out
}

// Table of contents

/// Where a heading is in its rewriting: not in one, collecting its events (with
/// the attributes of its start tag), or giving its events back from the end of
/// the list.
pub enum HeadingCapture<X> {
    Capturing(Vec<PageEvent<X>>, HeadingRank, Option<String>, Vec<String>, Vec<(String, Option<String>)>),
    Emitting(Vec<PageEvent<X>>, HeadingRank),
    Inactive,
}

/// The value of a `HeadingCapture`, with events as models.
pub enum CaptureModel<X> {
    Capturing(
        Seq<EventModel<X>>,
        HeadingRank,
        Option<Seq<char>>,
        Seq<Seq<char>>,
        Seq<(Seq<char>, Option<Seq<char>>)>,
    ),
    Emitting(Seq<EventModel<X>>, HeadingRank),
    Inactive,
}

impl<X> View for HeadingCapture<X> {
    type V = CaptureModel<X>;

    open spec fn view(&self) -> CaptureModel<X> {
        match self {
            HeadingCapture::Capturing(evs, level, id, classes, attrs) => CaptureModel::Capturing(
                events_view(evs@),
                *level,
                opt_view(*id),
                strings_view(classes@),
                attrs_view(attrs@),
            ),
            HeadingCapture::Emitting(evs, level) => CaptureModel::Emitting(events_view(evs@), *level),
            HeadingCapture::Inactive => CaptureModel::Inactive,
        }
    }
}

/// A heading listed in the table of contents: level, text and anchor id.
pub type TocEntry = (HeadingRank, Seq<char>, Seq<char>);

/// The state of a table-of-contents builder.
pub struct TocModel<X> {
    /// The events still to be read.
    pub rest: Seq<EventModel<X>>,
    /// The info string of the open fenced code block.
    pub code: Option<Seq<char>>,
    /// The headings listed so far.
    pub headings: Seq<TocEntry>,
    /// The heading being rewritten.
    pub head: CaptureModel<X>,
    /// The use counts of the slugger's buckets.
    pub counts: Seq<u8>,
    /// The heading levels that are listed.
    pub min_level: u8,
    pub max_level: u8,
    /// The byte order the slugger reads hashes in.
    pub little_endian: bool,
}

/// The number of slug buckets of a table-of-contents builder.
pub const TOC_BUCKETS: usize = 32;

/// What one `next` of a table-of-contents builder does: the state after it and
/// the event it gives out (`None` at the end of the input or when a formula or
/// code block fails to render). `highlighted` is what the highlighter returned,
/// if it was called.
pub open spec fn toc_next<X>(m: TocModel<X>, highlighted: Option<Seq<char>>) -> (TocModel<X>, Option<EventModel<X>>)
    decreases m.rest.len(),
{
    match m.head {
        CaptureModel::Emitting(stack, level) => {
            if stack.len() > 0 {
                (TocModel { head: CaptureModel::Emitting(stack.drop_last(), level), ..m }, Some(stack.last()))
            } else {
                (TocModel { head: CaptureModel::Inactive, ..m }, Some(EventModel::End(EndTag::Heading(level))))
            }
        },
        _ => {
            if m.rest.len() == 0 {
                (m, None)
            } else {
                let e = m.rest[0];
                let m1 = TocModel { rest: m.rest.drop_first(), ..m };
                match e {
                    EventModel::Start(TagModel::CodeBlock(Some(lang))) =>
                        (TocModel { code: Some(lang), ..m1 }, Some(EventModel::Start(TagModel::CodeBlock(None)))),
                    EventModel::Text(_) if m.code is Some => (m1, crate::syntex::html_of(highlighted)),
                    EventModel::End(EndTag::CodeBlock) if m.code is Some => (TocModel { code: None, ..m1 }, Some(e)),
                    EventModel::DisplayMath(latex) => (m1, crate::syntex::html_of(mathml_output(latex, DisplayMode::Block))),
                    EventModel::InlineMath(latex) => (m1, crate::syntex::inline_html_of(mathml_output(latex, DisplayMode::Inline))),
                    EventModel::Start(TagModel::Heading { level, id, classes, attrs })
                        if m.min_level <= level.number() <= m.max_level =>
                        toc_next(TocModel { head: CaptureModel::Capturing(Seq::empty(), level, id, classes, attrs), ..m1 }, highlighted),
                    EventModel::End(EndTag::Heading(_)) if m.head is Capturing => {
                        let evs = m.head->Capturing_0;
                        let level = m.head->Capturing_1;
                        let text = heading_text(evs);
                        let base = heading_slug(text);
                        let key = bucket(base, m.little_endian, TOC_BUCKETS as nat);
                        let (id, counts) = match m.head->Capturing_2 {
                            Some(id) => (id, m.counts),
                            None => (numbered(base, m.counts[key as int]), m.counts.update(key as int, bumped(m.counts[key as int]))),
                        };
                        (
                            TocModel {
                                headings: m.headings.push((level, text, id)),
                                head: CaptureModel::Emitting(evs.reverse(), level),
                                counts,
                                ..m1
                            },
                            Some(EventModel::Start(TagModel::Heading {
                                level,
                                id: Some(id),
                                classes: m.head->Capturing_3,
                                attrs: m.head->Capturing_4,
                            })),
                        )
                    },
                    _ => {
                        if m.head is Capturing {
                            toc_next(TocModel {
                                head: CaptureModel::Capturing(
                                    m.head->Capturing_0.push(e),
                                    m.head->Capturing_1,
                                    m.head->Capturing_2,
                                    m.head->Capturing_3,
                                    m.head->Capturing_4,
                                ),
                                ..m1
                            }, highlighted)
                        } else {
                            (m1, Some(e))
                        }
                    },
                }
            }
        },
    }
}

/// The code text and info string one `next` of a table-of-contents builder
/// highlights, if it highlights one (reading on as `toc_next` does).
pub open spec fn toc_code<X>(m: TocModel<X>) -> Option<(Seq<char>, Seq<char>)>
    decreases m.rest.len(),
{
    match m.head {
        CaptureModel::Emitting(..) => None,
        _ => {
            if m.rest.len() == 0 {
                None
            } else {
                let e = m.rest[0];
                let m1 = TocModel { rest: m.rest.drop_first(), ..m };
                match e {
                    EventModel::Start(TagModel::CodeBlock(Some(_))) => None,
                    EventModel::Text(t) if m.code is Some => Some((t, m.code->0)),
                    EventModel::End(EndTag::CodeBlock) if m.code is Some => None,
                    EventModel::DisplayMath(_) => None,
                    EventModel::InlineMath(_) => None,
                    EventModel::Start(TagModel::Heading { level, id, classes, attrs })
                        if m.min_level <= level.number() <= m.max_level =>
                        toc_code(TocModel { head: CaptureModel::Capturing(Seq::empty(), level, id, classes, attrs), ..m1 }),
                    EventModel::End(EndTag::Heading(_)) if m.head is Capturing => None,
                    _ => {
                        if m.head is Capturing {
                            toc_code(TocModel {
                                head: CaptureModel::Capturing(
                                    m.head->Capturing_0.push(e),
                                    m.head->Capturing_1,
                                    m.head->Capturing_2,
                                    m.head->Capturing_3,
                                    m.head->Capturing_4,
                                ),
                                ..m1
                            })
                        } else {
                            None
                        }
                    },
                }
            }
        },
    }
}

/// Closing a fenced code block leaves the builder outside any code block: the
/// end event is passed on, and a text after it (outside a heading) comes out
/// unchanged rather than highlighted.
pub proof fn law_toc_code_block_closes<X>(m: TocModel<X>, after: Seq<EventModel<X>>, lang: Seq<char>, text: Seq<char>, h: Option<Seq<char>>)
    requires
        !(m.head is Emitting),
    ensures
        toc_next(TocModel { rest: seq![EventModel::End(EndTag::CodeBlock)] + after, code: Some(lang), ..m }, h)
            == (TocModel { rest: after, code: None, ..m }, Some(EventModel::<X>::End(EndTag::CodeBlock))),
        m.head is Inactive ==> toc_next(TocModel { rest: seq![EventModel::Text(text)] + after, code: None, ..m }, h)
            == (TocModel { rest: after, code: None, ..m }, Some(EventModel::<X>::Text(text))),
{
    let ev = EventModel::<X>::End(EndTag::CodeBlock);
    let et = EventModel::<X>::Text(text);
    assert((seq![ev] + after).drop_first() =~= after);
    assert((seq![ev] + after)[0] == ev);
    assert((seq![et] + after).drop_first() =~= after);
    assert((seq![et] + after)[0] == et);
}

/// A heading outside the chosen levels is neither listed nor given an id: its
/// start tag passes on as it is.
pub proof fn law_unlisted_heading_passes<X>(
    m: TocModel<X>,
    level: HeadingRank,
    id: Option<Seq<char>>,
    classes: Seq<Seq<char>>,
    attrs: Seq<(Seq<char>, Option<Seq<char>>)>,
    after: Seq<EventModel<X>>,
    h: Option<Seq<char>>,
)
    requires
        m.head is Inactive,
        !(m.min_level <= level.number() <= m.max_level),
    ensures
        toc_next(TocModel { rest: seq![EventModel::Start(TagModel::Heading { level, id, classes, attrs })] + after, ..m }, h)
            == (TocModel { rest: after, ..m }, Some(EventModel::<X>::Start(TagModel::Heading { level, id, classes, attrs }))),
{
    let e = EventModel::<X>::Start(TagModel::Heading { level, id, classes, attrs });
    assert((seq![e] + after).drop_first() =~= after);
    assert((seq![e] + after)[0] == e);
}

/// What `k` successive steps of a table-of-contents builder give out, from the
/// given state, when no code block is highlighted on the way.
pub open spec fn toc_run<X>(m: TocModel<X>, k: nat) -> (TocModel<X>, Seq<Option<EventModel<X>>>)
    decreases k,
{
    if k == 0 {
        (m, Seq::empty())
    } else {
        let (m1, o) = toc_next(m, None);
        let (m2, os) = toc_run(m1, (k - 1) as nat);
        (m2, seq![o] + os)
    }
}

/// An event that a heading being collected for the table of contents takes in
/// as it is: anything but a fenced code block start, a formula (rendered on the
/// spot) and the tags of a listed heading.
pub open spec fn kept_in_listed_heading<X>(m: TocModel<X>, e: EventModel<X>) -> bool {
    match e {
        EventModel::Start(TagModel::CodeBlock(Some(_))) => false,
        EventModel::DisplayMath(_) => false,
        EventModel::InlineMath(_) => false,
        EventModel::Start(TagModel::Heading { level, .. }) => !(m.min_level <= level.number() <= m.max_level),
        EventModel::End(EndTag::Heading(_)) => false,
        _ => true,
    }
}

/// Each event as given out.
pub open spec fn given<X>(evs: Seq<EventModel<X>>) -> Seq<Option<EventModel<X>>> {
    evs.map_values(|e: EventModel<X>| Some(e))
}

/// Collecting a heading's events takes them in one by one, in order, until its end tag.
proof fn lemma_toc_collect<X>(m: TocModel<X>, evs: Seq<EventModel<X>>, tail: Seq<EventModel<X>>, h: Option<Seq<char>>)
    requires
        m.head is Capturing,
        m.code is None,
        m.rest == evs + tail,
        tail.len() > 0,
        tail[0] is End && tail[0]->End_0 is Heading,
        forall|i: int| 0 <= i < evs.len() ==> kept_in_listed_heading(m, #[trigger] evs[i]),
    ensures
        toc_next(m, h) == toc_next(TocModel {
            rest: tail,
            head: CaptureModel::Capturing(
                m.head->Capturing_0 + evs,
                m.head->Capturing_1,
                m.head->Capturing_2,
                m.head->Capturing_3,
                m.head->Capturing_4,
            ),
            ..m
        }, h),
    decreases evs.len(),
{
    let acc = m.head->Capturing_0;
    if evs.len() == 0 {
        assert(acc + evs =~= acc);
        assert(m.rest =~= tail);
    } else {
        let e = evs[0];
        assert(kept_in_listed_heading(m, e));
        assert(m.rest[0] == e);
        let m2 = TocModel {
            rest: m.rest.drop_first(),
            head: CaptureModel::Capturing(
                acc.push(e),
                m.head->Capturing_1,
                m.head->Capturing_2,
                m.head->Capturing_3,
                m.head->Capturing_4,
            ),
            ..m
        };
        assert(toc_next(m, h) == toc_next(m2, h));
        assert(m.rest.drop_first() =~= evs.drop_first() + tail);
        assert forall|i: int| 0 <= i < evs.drop_first().len() implies kept_in_listed_heading(m2, #[trigger] evs.drop_first()[i]) by {
            assert(evs.drop_first()[i] == evs[i + 1]);
        }
        lemma_toc_collect(m2, evs.drop_first(), tail, h);
        assert(acc.push(e) + evs.drop_first() =~= acc + evs);
    }
}

/// Giving back a collected heading: its events from the end of the list, then its end tag.
proof fn lemma_toc_give_back<X>(m: TocModel<X>, stack: Seq<EventModel<X>>, level: HeadingRank)
    requires
        m.head == CaptureModel::Emitting(stack, level),
    ensures
        toc_run(m, stack.len() + 1) == (
            TocModel { head: CaptureModel::Inactive, ..m },
            given(stack.reverse()) + seq![Some(EventModel::End(EndTag::Heading(level)))],
        ),
    decreases stack.len(),
{
    let m1 = toc_next(m, None).0;
    if stack.len() == 0 {
        assert(toc_run(m1, 0) == (m1, Seq::<Option<EventModel<X>>>::empty()));
        assert(given(stack.reverse()) =~= Seq::<Option<EventModel<X>>>::empty());
        assert(given(stack.reverse()) + seq![Some(EventModel::End(EndTag::Heading(level)))]
            =~= seq![Some(EventModel::<X>::End(EndTag::Heading(level)))]);
    } else {
        let rest_stack = stack.drop_last();
        assert(m1 == TocModel { head: CaptureModel::Emitting(rest_stack, level), ..m });
        lemma_toc_give_back(m1, rest_stack, level);
        assert(rest_stack.len() + 1 == stack.len());
        assert(given(stack.reverse()) =~= seq![Some(stack.last())] + given(rest_stack.reverse()));
        assert(given(stack.reverse()) + seq![Some(EventModel::End(EndTag::Heading(level)))]
            =~= seq![Some(stack.last())] + (given(rest_stack.reverse()) + seq![Some(EventModel::End(EndTag::Heading(level)))]));
    }
}

/// A listed heading comes out as it went in: its start tag carries the anchor id
/// that the table of contents lists for it (the id given in the source, if any),
/// its inner events follow in their input order, then its end tag, and the
/// heading is added to the list with its text.
pub proof fn law_listed_heading_keeps_its_events<X>(
    m: TocModel<X>,
    level: HeadingRank,
    id: Option<Seq<char>>,
    classes: Seq<Seq<char>>,
    attrs: Seq<(Seq<char>, Option<Seq<char>>)>,
    evs: Seq<EventModel<X>>,
    end_level: HeadingRank,
    tail: Seq<EventModel<X>>,
)
    requires
        m.head is Inactive,
        m.code is None,
        m.min_level <= level.number() <= m.max_level,
        m.rest == seq![EventModel::Start(TagModel::Heading { level, id, classes, attrs })] + evs
            + seq![EventModel::End(EndTag::Heading(end_level))] + tail,
        forall|i: int| 0 <= i < evs.len() ==> kept_in_listed_heading(m, #[trigger] evs[i]),
    ensures
        ({
            let (m2, out) = toc_run(m, evs.len() + 2);
            let anchor = m2.headings.last().2;
            &&& out == seq![Some(EventModel::Start(TagModel::Heading { level, id: Some(anchor), classes, attrs }))]
                + given(evs) + seq![Some(EventModel::End(EndTag::Heading(level)))]
            &&& m2.headings == m.headings.push((level, heading_text(evs), anchor))
            &&& (id matches Some(given_id) ==> anchor == given_id)
            &&& m2.rest == tail
            &&& m2.head is Inactive
            &&& m2.code is None
        }),
{
    let start = EventModel::<X>::Start(TagModel::Heading { level, id, classes, attrs });
    let end = EventModel::<X>::End(EndTag::Heading(end_level));
    let etail = seq![end] + tail;
    assert(m.rest[0] == start);
    let mc = TocModel {
        rest: m.rest.drop_first(),
        head: CaptureModel::Capturing(Seq::empty(), level, id, classes, attrs),
        ..m
    };
    assert(toc_next(m, None) == toc_next(mc, None));
    assert(mc.rest =~= evs + etail);
    assert forall|i: int| 0 <= i < evs.len() implies kept_in_listed_heading(mc, #[trigger] evs[i]) by {
        assert(kept_in_listed_heading(m, evs[i]));
    }
    lemma_toc_collect(mc, evs, etail, None);
    assert(Seq::<EventModel<X>>::empty() + evs =~= evs);
    let mf = TocModel { rest: etail, head: CaptureModel::Capturing(evs, level, id, classes, attrs), ..m };
    assert(toc_next(m, None) == toc_next(mf, None));
    assert(etail[0] == end);
    assert(etail.drop_first() =~= tail);
    let (m1, o) = toc_next(m, None);
    assert(m1.head == CaptureModel::Emitting(evs.reverse(), level));
    assert(m1.rest == tail);
    lemma_toc_give_back(m1, evs.reverse(), level);
    assert(evs.reverse().reverse() =~= evs);
    assert(evs.reverse().len() + 1 == evs.len() + 1);
    let k = evs.len() + 2;
    assert(toc_run(m, k) == (toc_run(m1, (k - 1) as nat).0, seq![o] + toc_run(m1, (k - 1) as nat).1));
}

/// Collects the headings of a page for a table of contents while passing its
/// events on: headings in the chosen levels get an anchor id (the one given in
/// the source, or one made from their text), code blocks are highlighted and
/// formulas rendered. Reading stops (`None`) when a formula or code block fails
/// to render.
pub struct TocIterator<X> {
    inner: EventStream<X>,
    storage: pulldown_latex::Storage,
    code: Option<String>,
    headings: Vec<(HeadingRank, String, String)>,
    heading: HeadingCapture<X>,
    slugger: Slugger<TOC_BUCKETS>,
    levels: Levels,
}

/// The levels, texts and ids of listed headings.
pub open spec fn entries_view(v: Seq<(HeadingRank, String, String)>) -> Seq<TocEntry> {
    v.map_values(|e: (HeadingRank, String, String)| (e.0, e.1@, e.2@))
}

impl<X> TocIterator<X> {
    /// The state of the builder.
    pub closed spec fn model(&self) -> TocModel<X> {
        TocModel {
            rest: self.inner.rest(),
            code: opt_view(self.code),
            headings: entries_view(self.headings@),
            head: self.heading@,
            counts: self.slugger.counts(),
            min_level: self.levels.min(),
            max_level: self.levels.max(),
            little_endian: self.slugger.little_endian(),
        }
    }

    /// The slugger has one counter per bucket.
    pub closed spec fn well_formed(&self) -> bool {
        self.slugger.well_formed()
    }

    /// A builder over the given events, listing the headings in `levels`.
    pub fn new(inner: EventStream<X>, levels: Levels) -> (r: Self)
        ensures
            r.well_formed(),
            r.model() == (TocModel {
                rest: inner.rest(),
                code: None,
                headings: Seq::<TocEntry>::empty(),
                head: CaptureModel::<X>::Inactive,
                counts: Seq::new(TOC_BUCKETS as nat, |i: int| 0u8),
                min_level: levels.min(),
                max_level: levels.max(),
                little_endian: r.model().little_endian,
            }),
    {
        let r = TocIterator {
            inner,
            levels,
            headings: Vec::new(),
            storage: new_storage(),
            code: None,
            heading: HeadingCapture::Inactive,
            slugger: Slugger::new(),
        };
        assert(entries_view(r.headings@) =~= Seq::<TocEntry>::empty());
        r
    }

    /// The next event of the page.
    pub fn next(&mut self) -> (r: Option<PageEvent<X>>)
        requires
            old(self).well_formed(),
        ensures
            final(self).well_formed(),
            exists|h: Option<Seq<char>>| #[trigger] toc_next(old(self).model(), h)
                == (final(self).model(), opt_event(r))
                && highlight_fits(h, toc_code(old(self).model())),
    {
        let ghost m0 = self.model();
        let mut head = HeadingCapture::Inactive;
        std::mem::swap(&mut head, &mut self.heading);
        match head {
            HeadingCapture::Emitting(mut h_events, level) => {
                let ghost stack = h_events@;
                let popped = h_events.pop();
                proof {
                    if stack.len() > 0 {
                        assert(events_view(h_events@) =~= events_view(stack).drop_last());
                        assert(events_view(stack).last() == stack.last()@);
                    }
                }
                let r = match popped {
                    Some(e) => {
                        self.heading = HeadingCapture::Emitting(h_events, level);
                        Some(e)
                    },
                    None => Some(PageEvent::End(EndTag::Heading(level))),
                };
                proof {
                    assert(toc_next(m0, None) == (self.model(), opt_event(r)));
                    assert(m0 == old(self).model());
                }
                r
            },
            other => {
                self.heading = other;
                assert(self.model() == m0);
                self.next_from_input()
            },
        }
    }

    /// Reads input events until one is given out (outside a heading being emitted).
    fn next_from_input(&mut self) -> (r: Option<PageEvent<X>>)
        requires
            old(self).well_formed(),
            !(old(self).model().head is Emitting),
        ensures
            final(self).well_formed(),
            exists|h: Option<Seq<char>>| #[trigger] toc_next(old(self).model(), h)
                == (final(self).model(), opt_event(r))
                && highlight_fits(h, toc_code(old(self).model())),
    {
        let ghost m0 = self.model();
        loop
            invariant
                self.well_formed(),
                m0 == old(self).model(),
                !(self.model().head is Emitting),
                forall|h: Option<Seq<char>>| #[trigger] toc_next(m0, h) == toc_next(self.model(), h),
                toc_code(m0) == toc_code(self.model()),
            decreases self.model().rest.len(),
        {
            let ghost m = self.model();
            let e = match self.inner.next() {
                Some(e) => e,
                None => {
                    proof {
                        assert(toc_next(m0, None) == (self.model(), opt_event::<X>(None)));
                    }
                    return None;
                },
            };
            assert(e@ == m.rest[0]);
            let capturing = matches!(self.heading, HeadingCapture::Capturing(..));
            match e {
                PageEvent::Start(StartTag::CodeBlock(CodeKind::Fenced(lang))) => {
                    self.code = Some(lang);
                    let r = Some(PageEvent::Start(StartTag::CodeBlock(CodeKind::Indented)));
                    proof {
                        assert(toc_next(m0, None) == (self.model(), opt_event(r)));
                    }
                    return r;
                },
                PageEvent::Text(code) if self.code.is_some() => {
                    let r = match highlight_code(code.as_str(), self.code.as_ref().unwrap().as_str()) {
                        Ok(html) => Some(PageEvent::Html(html)),
                        Err(_) => None,
                    };
                    let ghost h = match r {
                        Some(PageEvent::Html(ref s)) => Some(s@),
                        _ => None,
                    };
                    proof {
                        assert(toc_next(m0, h) == (self.model(), opt_event(r)));
                    }
                    return r;
                },
                PageEvent::End(EndTag::CodeBlock) if self.code.is_some() => {
                    self.code = None;
                    let r = Some(PageEvent::End(EndTag::CodeBlock));
                    proof {
                        assert(toc_next(m0, None) == (self.model(), opt_event(r)));
                    }
                    return r;
                },
                PageEvent::DisplayMath(latex) => {
                    let r = match latex_to_mathml(latex.as_str(), &mut self.storage, DisplayMode::Block) {
                        Ok(m) => Some(PageEvent::Html(m)),
                        Err(_) => None,
                    };
                    proof {
                        assert(toc_next(m0, None) == (self.model(), opt_event(r)));
                    }
                    return r;
                },
                PageEvent::InlineMath(latex) => {
                    let r = match latex_to_mathml(latex.as_str(), &mut self.storage, DisplayMode::Inline) {
                        Ok(m) => Some(PageEvent::InlineHtml(m)),
                        Err(_) => None,
                    };
                    proof {
                        assert(toc_next(m0, None) == (self.model(), opt_event(r)));
                    }
                    return r;
                },
                PageEvent::Start(StartTag::Heading { level, id, classes, attrs }) if self.levels.level_enabled(level) => {
                    self.heading = HeadingCapture::Capturing(Vec::new(), level, id, classes, attrs);
                    proof {
                        assert(events_view(Seq::<PageEvent<X>>::empty()) =~= Seq::<EventModel<X>>::empty());
                        assert forall|h: Option<Seq<char>>| #[trigger] toc_next(m, h) == toc_next(self.model(), h) by {}
                    }
                },
                PageEvent::End(EndTag::Heading(_)) if capturing => {
                    let mut head = HeadingCapture::Inactive;
                    std::mem::swap(&mut head, &mut self.heading);
                    match head {
                        HeadingCapture::Capturing(h_events, level, id, classes, attrs) => {
                            let header_text = heading_text_of(&h_events);
                            let ghost counts0 = self.slugger.counts();
                            let id = match id {
                                Some(id) => id,
                                None => self.slugger.slug(header_text.as_str()),
                            };
                            let ghost hs = entries_view(self.headings@);
                            let ghost evs = events_view(h_events@);
                            self.headings.push((level, header_text, id.clone()));
                            proof {
                                assert(entries_view(self.headings@) =~= hs.push((level, heading_text(evs), id@)));
                            }
                            let h_events = reversed(h_events);
                            proof {
                                assert(events_view(h_events@) =~= evs.reverse());
                            }
                            self.heading = HeadingCapture::Emitting(h_events, level);
                            let r = Some(PageEvent::Start(StartTag::Heading { level, id: Some(id), classes, attrs }));
                            proof {
                                assert(toc_next(m0, None) == (self.model(), opt_event(r)));
                            }
                            return r;
                        },
                        _ => {
                            proof {
                                assert(false);
                            }
                            return None;
                        },
                    }
                },
                other => {
                    if capturing {
                        let mut head = HeadingCapture::Inactive;
                        std::mem::swap(&mut head, &mut self.heading);
                        match head {
                            HeadingCapture::Capturing(mut h_events, level, id, classes, attrs) => {
                                let ghost evs = events_view(h_events@);
                                let ghost o = other@;
                                h_events.push(other);
                                proof {
                                    assert(events_view(h_events@) =~= evs.push(o));
                                }
                                self.heading = HeadingCapture::Capturing(h_events, level, id, classes, attrs);
                                proof {
                                    assert forall|h: Option<Seq<char>>| #[trigger] toc_next(m, h) == toc_next(self.model(), h) by {}
                                }
                            },
                            _ => {
                                proof {
                                    assert(false);
                                }
                            },
                        }
                    } else {
                        let r = Some(other);
                        proof {
                            assert(toc_next(m0, None) == (self.model(), opt_event(r)));
                        }
                        return r;
                    }
                },
            }
        }
    }
}

/// The text of a heading: the text of its text, inline code, inline math and
/// inline HTML events, in order.
fn heading_text_of<X>(h_events: &Vec<PageEvent<X>>) -> (r: String)
    ensures
        r@ == heading_text(events_view(h_events@)),
{
    let mut out = String::new();
    let mut i: usize = 0;
    while i < h_events.len()
        invariant
            i <= h_events@.len(),
            out@ == heading_text(events_view(h_events@.take(i as int))),
        decreases h_events@.len() - i,
    {
        let ghost evs = events_view(h_events@.take(i as int));
        match &h_events[i] {
            PageEvent::Text(s) | PageEvent::Code(s) | PageEvent::InlineMath(s) | PageEvent::InlineHtml(s) => {
                out.append(s.as_str());
            },
            _ => {},
        }
        proof {
            let evs2 = events_view(h_events@.take(i + 1));
            assert(evs2.drop_last() =~= evs);
            assert(evs2.last() == h_events@[i as int]@);
            if inline_text(evs2.last()).len() == 0 {
                assert(heading_text(evs) + inline_text(evs2.last()) =~= heading_text(evs));
            }
        }
        i = i + 1;
    }
    proof {
        assert(h_events@.take(h_events@.len() as int) =~= h_events@);
    }
    out
}

// Rendering the table of contents

/// A piece of the table of contents' HTML.
pub enum TocToken {
    /// `<ul>`
    OpenList,
    /// `</ul>`
    CloseList,
    /// `<li><a href="#ID">TEXT</a>`
    OpenItem(Seq<char>, Seq<char>),
    /// `</li>`
    CloseItem,
}

/// The HTML of a token.
pub open spec fn token_html(t: TocToken) -> Seq<char> {
    match t {
        TocToken::OpenList => "<ul>"@,
        TocToken::CloseList => "</ul>"@,
        TocToken::OpenItem(id, text) => "<li><a href=\"#"@ + id + "\">"@ + text + "</a>"@,
        TocToken::CloseItem => "</li>"@,
    }
}

/// The HTML of a sequence of tokens.
pub open spec fn render(ts: Seq<TocToken>) -> Seq<char>
    decreases ts.len(),
{
    if ts.len() == 0 {
        Seq::empty()
    } else {
        render(ts.drop_last()) + token_html(ts.last())
    }
}

/// `n` copies of a token sequence.
pub open spec fn repeat(ts: Seq<TocToken>, n: nat) -> Seq<TocToken>
    decreases n,
{
    if n == 0 {
        Seq::empty()
    } else {
        repeat(ts, (n - 1) as nat) + ts
    }
}

/// The level the list is at before heading `i` is listed (1 before the first).
pub open spec fn level_before(hs: Seq<TocEntry>, i: int) -> int {
    if i == 0 {
        1
    } else {
        hs[i - 1].0.number() as int
    }
}

/// The tokens for heading `i`: closing the previous item, opening or closing
/// nested lists to reach the heading's level, then the heading's item.
pub open spec fn heading_tokens(hs: Seq<TocEntry>, i: int) -> Seq<TocToken> {
    let level = hs[i].0.number() as int;
    let current = level_before(hs, i);
    (if i > 0 { seq![TocToken::CloseItem] } else { Seq::empty() })
        + (if level > current {
            repeat(seq![TocToken::OpenList], (level - current) as nat)
        } else if level < current {
            repeat(seq![TocToken::CloseList, TocToken::CloseItem], (current - level) as nat)
        } else {
            Seq::empty()
        })
        + seq![TocToken::OpenItem(hs[i].2, hs[i].1)]
}

/// The tokens for the first `n` headings.
pub open spec fn toc_body(hs: Seq<TocEntry>, n: nat) -> Seq<TocToken>
    decreases n,
{
    if n == 0 {
        Seq::empty()
    } else {
        toc_body(hs, (n - 1) as nat) + heading_tokens(hs, n - 1)
    }
}

/// The tokens of a table of contents: nothing for no headings; otherwise an
/// outer list, the headings' tokens, and the closing of every list still open.
pub open spec fn toc_tokens(hs: Seq<TocEntry>) -> Seq<TocToken> {
    if hs.len() == 0 {
        Seq::empty()
    } else {
        seq![TocToken::OpenList] + toc_body(hs, hs.len())
            + repeat(seq![TocToken::CloseList, TocToken::CloseItem], (hs.last().0.number() - 1) as nat)
            + seq![TocToken::CloseItem, TocToken::CloseList]
    }
}

/// The HTML of a table of contents.
pub open spec fn toc_html(hs: Seq<TocEntry>) -> Seq<char> {
    render(toc_tokens(hs))
}

/// Rendering a concatenation concatenates the renderings.
pub proof fn lemma_render_concat(a: Seq<TocToken>, b: Seq<TocToken>)
    ensures
        render(a + b) == render(a) + render(b),
    decreases b.len(),
{
    if b.len() == 0 {
        assert(a + b == a);
    } else {
        lemma_render_concat(a, b.drop_last());
        assert((a + b).drop_last() == a + b.drop_last());
    }
}

/// How many lists a token sequence leaves open (openings minus closings).
pub open spec fn list_depth(ts: Seq<TocToken>) -> int
    decreases ts.len(),
{
    if ts.len() == 0 {
        0
    } else {
        list_depth(ts.drop_last()) + token_depth(ts.last())
    }
}

/// What a token does to the number of open lists.
pub open spec fn token_depth(t: TocToken) -> int {
    match t {
        TocToken::OpenList => 1,
        TocToken::CloseList => -1,
        _ => 0,
    }
}

proof fn lemma_depth_one(t: TocToken)
    ensures
        list_depth(seq![t]) == token_depth(t),
{
    assert(seq![t].drop_last() == Seq::<TocToken>::empty());
    assert(seq![t].last() == t);
    assert(list_depth(Seq::<TocToken>::empty()) == 0);
}

proof fn lemma_depth_two(t: TocToken, u: TocToken)
    ensures
        list_depth(seq![t, u]) == token_depth(t) + token_depth(u),
{
    lemma_depth_one(t);
    lemma_depth_one(u);
    assert(seq![t, u] == seq![t] + seq![u]);
    lemma_depth_concat(seq![t], seq![u]);
}

proof fn lemma_depth_concat(a: Seq<TocToken>, b: Seq<TocToken>)
    ensures
        list_depth(a + b) == list_depth(a) + list_depth(b),
    decreases b.len(),
{
    if b.len() == 0 {
        assert(a + b == a);
    } else {
        lemma_depth_concat(a, b.drop_last());
        assert((a + b).drop_last() == a + b.drop_last());
    }
}

proof fn lemma_depth_repeat(ts: Seq<TocToken>, n: nat)
    ensures
        list_depth(repeat(ts, n)) == n * list_depth(ts),
    decreases n,
{
    let d = list_depth(ts);
    if n > 0 {
        lemma_depth_repeat(ts, (n - 1) as nat);
        lemma_depth_concat(repeat(ts, (n - 1) as nat), ts);
        assert(n * d == (n - 1) * d + d) by (nonlinear_arith);
    } else {
        assert(0 * d == 0);
    }
}

proof fn lemma_depth_body(hs: Seq<TocEntry>, n: nat)
    requires
        1 <= n <= hs.len(),
    ensures
        list_depth(toc_body(hs, n)) == hs[n - 1].0.number() - 1,
    decreases n,
{
    let i = n - 1;
    let level = hs[i].0.number() as int;
    let current = level_before(hs, i);
    let first: Seq<TocToken> = if i > 0 { seq![TocToken::CloseItem] } else { Seq::empty() };
    let middle = if level > current {
        repeat(seq![TocToken::OpenList], (level - current) as nat)
    } else if level < current {
        repeat(seq![TocToken::CloseList, TocToken::CloseItem], (current - level) as nat)
    } else {
        Seq::empty()
    };
    let item = seq![TocToken::OpenItem(hs[i].2, hs[i].1)];
    lemma_depth_one(TocToken::OpenList);
    lemma_depth_two(TocToken::CloseList, TocToken::CloseItem);
    lemma_depth_one(TocToken::OpenItem(hs[i].2, hs[i].1));
    lemma_depth_one(TocToken::CloseItem);
    if level > current {
        let k = (level - current) as nat;
        lemma_depth_repeat(seq![TocToken::OpenList], k);
        assert(k * 1 == k);
    } else if level < current {
        let k = (current - level) as nat;
        lemma_depth_repeat(seq![TocToken::CloseList, TocToken::CloseItem], k);
        assert(k * (-1) == -k);
    } else {
        assert(list_depth(Seq::<TocToken>::empty()) == 0);
    }
    assert(list_depth(middle) == level - current);
    lemma_depth_concat(first, middle);
    lemma_depth_concat(first + middle, item);
    assert(list_depth(heading_tokens(hs, i)) == level - current);
    if n > 1 {
        lemma_depth_body(hs, (n - 1) as nat);
    }
    lemma_depth_concat(toc_body(hs, (n - 1) as nat), heading_tokens(hs, i));
}

/// Law: a table of contents closes every list it opens.
pub proof fn law_toc_lists_balanced(hs: Seq<TocEntry>)
    ensures
        list_depth(toc_tokens(hs)) == 0,
{
    if hs.len() > 0 {
        let n = hs.len();
        let last = hs.last().0.number() as int;
        lemma_depth_body(hs, n);
        assert(hs[n - 1] == hs.last());
        let closes = repeat(seq![TocToken::CloseList, TocToken::CloseItem], (last - 1) as nat);
        lemma_depth_two(TocToken::CloseList, TocToken::CloseItem);
        lemma_depth_repeat(seq![TocToken::CloseList, TocToken::CloseItem], (last - 1) as nat);
        assert(((last - 1) as nat) * (-1) == -(last - 1));
        let open = seq![TocToken::OpenList];
        lemma_depth_one(TocToken::OpenList);
        let end = seq![TocToken::CloseItem, TocToken::CloseList];
        lemma_depth_two(TocToken::CloseItem, TocToken::CloseList);
        lemma_depth_concat(open, toc_body(hs, n));
        lemma_depth_concat(open + toc_body(hs, n), closes);
        lemma_depth_concat(open + toc_body(hs, n) + closes, end);
    }
}

proof fn lemma_render_one(t: TocToken)
    ensures
        render(seq![t]) == token_html(t),
{
    assert(seq![t].drop_last() == Seq::<TocToken>::empty());
    assert(seq![t].last() == t);
    assert(render(Seq::<TocToken>::empty()) == Seq::<char>::empty());
    assert(Seq::<char>::empty() + token_html(t) == token_html(t));
}

/// Appends `n` copies of the tokens `ts` to `html`, given their HTML `piece`.
proof fn lemma_render_repeat_step(base: Seq<TocToken>, ts: Seq<TocToken>, j: nat)
    ensures
        render(base + repeat(ts, j + 1)) == render(base + repeat(ts, j)) + render(ts),
{
    assert(repeat(ts, j + 1) == repeat(ts, j) + ts);
    assert(base + repeat(ts, j + 1) == (base + repeat(ts, j)) + ts);
    lemma_render_concat(base + repeat(ts, j), ts);
}

impl<X> TocIterator<X> {
    /// The table of contents of the headings read, as nested HTML lists of links
    /// to their anchors (the empty string when there are none).
    #[verifier::spinoff_prover]
    #[verifier::rlimit(40)]
    pub fn toc(self) -> (r: String)
        ensures
            r@ == toc_html(self.model().headings),
    {
        let hs = &self.headings;
        let ghost m = entries_view(hs@);
        if hs.len() == 0 {
            return String::new();
        }
        let mut html = String::new();
        html.append("<ul>");
        proof {
            lemma_render_one(TocToken::OpenList);
            assert(seq![TocToken::OpenList] + toc_body(m, 0) == seq![TocToken::OpenList]);
        }
        let mut current_level: usize = 1;
        let mut i: usize = 0;
        while i < hs.len()
            invariant
                m == entries_view(hs@),
                m.len() == hs@.len(),
                i <= hs@.len(),
                current_level == level_before(m, i as int),
                1 <= current_level <= 6,
                html@ == render(seq![TocToken::OpenList] + toc_body(m, i as nat)),
            decreases hs@.len() - i,
        {
            let ghost base = seq![TocToken::OpenList] + toc_body(m, i as nat);
            let ghost first: Seq<TocToken> = if i > 0 { seq![TocToken::CloseItem] } else { Seq::empty() };
            let entry = &hs[i as usize];
            let level_num = Levels::level_to_u8(entry.0) as usize;
            assert(level_num == m[i as int].0.number());
            if i > 0 {
                html.append("</li>");
                proof {
                    lemma_render_one(TocToken::CloseItem);
                    lemma_render_concat(base, first);
                }
            } else {
                assert(base + first == base);
            }
            let ghost base1 = base + first;
            let ghost middle: Seq<TocToken>;
            if level_num > current_level {
                let ghost ts = seq![TocToken::OpenList];
                let mut k: usize = current_level;
                proof {
                    assert(base1 + repeat(ts, 0) == base1);
                }
                while k < level_num
                    invariant
                        ts == seq![TocToken::OpenList],
                        current_level <= k <= level_num,
                        html@ == render(base1 + repeat(ts, (k - current_level) as nat)),
                    decreases level_num - k,
                {
                    html.append("<ul>");
                    proof {
                        lemma_render_one(TocToken::OpenList);
                        lemma_render_repeat_step(base1, ts, (k - current_level) as nat);
                    }
                    k = k + 1;
                }
                proof {
                    middle = repeat(ts, (level_num - current_level) as nat);
                }
            } else if level_num < current_level {
                let ghost ts = seq![TocToken::CloseList, TocToken::CloseItem];
                let mut k: usize = level_num;
                proof {
                    assert(base1 + repeat(ts, 0) == base1);
                }
                while k < current_level
                    invariant
                        ts == seq![TocToken::CloseList, TocToken::CloseItem],
                        level_num <= k <= current_level,
                        html@ == render(base1 + repeat(ts, (k - level_num) as nat)),
                    decreases current_level - k,
                {
                    html.append("</ul>");
                    html.append("</li>");
                    proof {
                        lemma_render_one(TocToken::CloseList);
                        lemma_render_one(TocToken::CloseItem);
                        assert(ts =~= seq![TocToken::CloseList] + seq![TocToken::CloseItem]);
                        lemma_render_concat(seq![TocToken::CloseList], seq![TocToken::CloseItem]);
                        lemma_render_repeat_step(base1, ts, (k - level_num) as nat);
                    }
                    k = k + 1;
                }
                proof {
                    middle = repeat(ts, (current_level - level_num) as nat);
                }
            } else {
                proof {
                    middle = Seq::empty();
                    assert(base1 + middle == base1);
                }
            }
            current_level = level_num;
            html.append("<li><a href=\"#");
            html.append(entry.2.as_str());
            html.append("\">");
            html.append(entry.1.as_str());
            html.append("</a>");
            proof {
                let item = TocToken::OpenItem(m[i as int].2, m[i as int].1);
                lemma_render_one(item);
                lemma_render_concat(base1 + middle, seq![item]);
                assert(heading_tokens(m, i as int) == first + middle + seq![item]);
                assert(toc_body(m, (i + 1) as nat) == toc_body(m, i as nat) + heading_tokens(m, i as int));
                assert(seq![TocToken::OpenList] + toc_body(m, (i + 1) as nat) =~= base1 + middle + seq![item]);
            }
            i = i + 1;
        }
        let ghost body = seq![TocToken::OpenList] + toc_body(m, m.len());
        let ghost ts = seq![TocToken::CloseList, TocToken::CloseItem];
        let mut k: usize = 1;
        proof {
            assert(body + repeat(ts, 0) == body);
        }
        while k < current_level
            invariant
                ts == seq![TocToken::CloseList, TocToken::CloseItem],
                1 <= k <= current_level,
                html@ == render(body + repeat(ts, (k - 1) as nat)),
            decreases current_level - k,
        {
            html.append("</ul>");
            html.append("</li>");
            proof {
                lemma_render_one(TocToken::CloseList);
                lemma_render_one(TocToken::CloseItem);
                assert(ts =~= seq![TocToken::CloseList] + seq![TocToken::CloseItem]);
                lemma_render_concat(seq![TocToken::CloseList], seq![TocToken::CloseItem]);
                lemma_render_repeat_step(body, ts, (k - 1) as nat);
            }
            k = k + 1;
        }
        html.append("</li>");
        html.append("</ul>");
        proof {
            let end = seq![TocToken::CloseItem, TocToken::CloseList];
            let closes = repeat(ts, (current_level - 1) as nat);
            assert(m[m.len() - 1] == m.last());
            lemma_render_one(TocToken::CloseItem);
            lemma_render_one(TocToken::CloseList);
            assert(end =~= seq![TocToken::CloseItem] + seq![TocToken::CloseList]);
            lemma_render_concat(seq![TocToken::CloseItem], seq![TocToken::CloseList]);
            lemma_render_concat(body + closes, end);
            assert(toc_tokens(m) =~= body + closes + end);
        }
        html
    }
}

} // verus!
