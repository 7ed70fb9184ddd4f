use vstd::prelude::*;
use crate::collections::{index_items, string_items, IndexList, StringList};
use crate::strings::{
    lemma_text_less_irreflexive, lemma_text_less_total, lemma_text_less_transitive, replace, replace_all, text_is_less,
    text_less,
};
use crate::utils::{escape_text, html_escape, slug_of, slugify};
use crate::types::Entry;
use crate::syntex::YamlValue;
use crate::types::{format_long_date, long_date_text, parse_date, parsed_midnight, Timestamp};

verus! {

// Front matter

/// The value at `key` in a list of YAML mapping entries: that of the first
/// entry whose key is the string `key`.
pub open spec fn entry_value(entries: Seq<(YamlValue, YamlValue)>, key: Seq<char>) -> Option<YamlValue>
    decreases entries.len(),
{
    if entries.len() == 0 {
        None
    } else if entries[0].0 matches YamlValue::String(k) && k@ == key {
        Some(entries[0].1)
    } else {
        entry_value(entries.drop_first(), key)
    }
}

/// `doc[key]` as `yaml_rust2` reads it: the value at the string key of a
/// mapping, `BadValue` for a missing key or a node that is not a mapping.
pub open spec fn yaml_at(doc: YamlValue, key: Seq<char>) -> YamlValue {
    match doc {
        YamlValue::Hash(entries) => match entry_value(entries@, key) {
            Some(v) => v,
            None => YamlValue::BadValue,
        },
        _ => YamlValue::BadValue,
    }
}

/// The string of a string node.
pub open spec fn yaml_str(v: YamlValue) -> Option<Seq<char>> {
    match v {
        YamlValue::String(s) => Some(s@),
        _ => None,
    }
}

/// The boolean of a boolean node.
pub open spec fn yaml_bool(v: YamlValue) -> Option<bool> {
    match v {
        YamlValue::Boolean(b) => Some(b),
        _ => None,
    }
}

/// The strings of an array node whose items are all strings.
pub open spec fn yaml_strings(v: YamlValue) -> Option<Seq<Seq<char>>> {
    match v {
        YamlValue::Array(items) => if forall|i: int| 0 <= i < items@.len() ==> #[trigger] yaml_str(items@[i]) is Some {
            Some(items@.map_values(|item: YamlValue| yaml_str(item)->0))
        } else {
            None
        },
        _ => None,
    }
}

/// The value at `key` of a mapping node (`doc[key]`).
pub fn yaml_index<'a>(doc: &'a YamlValue, key: &str) -> (r: &'a YamlValue)
    ensures
        *r == yaml_at(*doc, key@),
{
    match doc {
        YamlValue::Hash(entries) => {
            let mut i: usize = 0;
            proof {
                assert(entries@.skip(0) == entries@);
            }
            while i < entries.len()
                invariant
                    yaml_at(*doc, key@) == match entry_value(entries@, key@) {
                        Some(v) => v,
                        None => YamlValue::BadValue,
                    },
                    i <= entries@.len(),
                    entry_value(entries@, key@) == entry_value(entries@.skip(i as int), key@),
                decreases entries@.len() - i,
            {
                proof {
                    assert(entries@.skip(i as int).drop_first() == entries@.skip(i + 1));
                    assert(entries@.skip(i as int)[0] == entries@[i as int]);
                }
                if let YamlValue::String(k) = &entries[i].0 {
                    if crate::syntex::same_text(k.as_str(), key) {
                        proof {
                            assert(entry_value(entries@.skip(i as int), key@) == Some(entries@[i as int].1));
                        }
                        return &entries[i].1;
                    }
                }
                i = i + 1;
            }
            proof {
                assert(entries@.skip(i as int).len() == 0);
            }
            &YamlValue::BadValue
        },
        _ => &YamlValue::BadValue,
    }
}

/// The front matter of an article.
#[derive(Clone, Debug)]
pub struct Metadata {
    pub title: String,
    pub subtitle: Option<String>,
    pub tags: Option<StringList>,
    pub draft: bool,
    /// The publication date, at midnight UTC.
    pub date: Option<Timestamp>,
}

/// The value of a `Metadata`, with strings as character sequences.
pub struct MetadataModel {
    pub title: Seq<char>,
    pub subtitle: Option<Seq<char>>,
    pub tags: Option<Seq<Seq<char>>>,
    pub draft: bool,
    pub date: Option<Timestamp>,
}

impl View for Metadata {
    type V = MetadataModel;

    open spec fn view(&self) -> MetadataModel {
        MetadataModel {
            title: self.title@,
            subtitle: crate::events::opt_view(self.subtitle),
            tags: match self.tags {
                Some(t) => Some(string_items(t)),
                None => None,
            },
            draft: self.draft,
            date: self.date,
        }
    }
}

/// The front matter a YAML document describes: `title` (required), `subtitle`,
/// `tags` (a list of strings), `draft` (false unless given) and `date`
/// (`YYYY-MM-DD`); a field of another type counts as absent.
pub open spec fn metadata_of(doc: YamlValue) -> Option<MetadataModel> {
    match yaml_str(yaml_at(doc, "title"@)) {
        None => None,
        Some(title) => Some(MetadataModel {
            title,
            subtitle: yaml_str(yaml_at(doc, "subtitle"@)),
            tags: yaml_strings(yaml_at(doc, "tags"@)),
            draft: match yaml_bool(yaml_at(doc, "draft"@)) {
                Some(b) => b,
                None => false,
            },
            date: match yaml_str(yaml_at(doc, "date"@)) {
                Some(s) => parsed_midnight(s),
                None => None,
            },
        }),
    }
}

/// The string of a string node, copied.
fn as_string(v: &YamlValue) -> (r: Option<String>)
    ensures
        crate::events::opt_view(r) == yaml_str(*v),
{
    match v {
        YamlValue::String(s) => Some(s.clone()),
        _ => None,
    }
}

/// The boolean of a boolean node.
fn as_bool(v: &YamlValue) -> (r: Option<bool>)
    ensures
        r == yaml_bool(*v),
{
    match v {
        YamlValue::Boolean(b) => Some(*b),
        _ => None,
    }
}

/// The strings of an array node whose items are all strings.
fn as_strings(v: &YamlValue) -> (r: Option<StringList>)
    ensures
        match r {
            Some(l) => yaml_strings(*v) == Some(string_items(l)),
            None => yaml_strings(*v) is None,
        },
{
    match v {
        YamlValue::Array(items) => {
            let mut out: Vec<String> = Vec::new();
            let mut i: usize = 0;
            while i < items.len()
                invariant
                    *v == YamlValue::Array(*items),
                    i <= items@.len(),
                    out@.len() == i,
                    forall|j: int| 0 <= j < i ==> #[trigger] yaml_str(items@[j]) == Some(out@[j]@),
                decreases items@.len() - i,
            {
                match as_string(&items[i]) {
                    Some(s) => out.push(s),
                    None => {
                        assert(yaml_str(items@[i as int]) is None);
                        return None;
                    },
                }
                i = i + 1;
            }
            let r = StringList::from_vec(out);
            proof {
                assert(forall|j: int| 0 <= j < items@.len() ==> #[trigger] yaml_str(items@[j]) is Some);
                assert(items@.map_values(|item: YamlValue| yaml_str(item)->0) =~= out@.map_values(|s: String| s@));
            }
            Some(r)
        },
        _ => None,
    }
}

impl Metadata {
    /// Reads an article's front matter from its YAML document; `None` without a
    /// string `title`.
    pub fn parse_metadata(doc: &YamlValue) -> (r: Option<Metadata>)
        ensures
            match r {
                Some(m) => metadata_of(*doc) == Some(m@),
                None => metadata_of(*doc) is None,
            },
    {
        let title = match as_string(yaml_index(doc, "title")) {
            Some(t) => t,
            None => return None,
        };
        let subtitle = as_string(yaml_index(doc, "subtitle"));
        let tags = as_strings(yaml_index(doc, "tags"));
        let draft = match as_bool(yaml_index(doc, "draft")) {
            Some(b) => b,
            None => false,
        };
        let date = match as_string(yaml_index(doc, "date")) {
            Some(s) => parse_date(s.as_str()),
            None => None,
        };
        Some(Metadata { title, subtitle, tags, draft, date })
    }
}

/// Whether the page asks for heading anchors (`anchors: true` in its front matter).
pub open spec fn wants_anchors(doc: YamlValue) -> bool {
    match yaml_bool(yaml_at(doc, "anchors"@)) {
        Some(b) => b,
        None => false,
    }
}

/// Whether the page asks for heading anchors (`anchors: true` in its front matter).
pub fn anchors_flag(doc: &YamlValue) -> (r: bool)
    ensures
        r == wants_anchors(*doc),
{
    match as_bool(yaml_index(doc, "anchors")) {
        Some(b) => b,
        None => false,
    }
}

// Page headers and labels

/// A page header: the template with `{{TITLE}}`, `{{DESCRIPTION}}`, `{{TAGS}}` and
/// `{{URL}}` filled in, in that order.
pub open spec fn header_page(
    template: Seq<char>,
    title: Seq<char>,
    description: Seq<char>,
    tags: Seq<char>,
    url: Seq<char>,
) -> Seq<char> {
    replace_all(
        replace_all(
            replace_all(replace_all(template, "{{TITLE}}"@, title), "{{DESCRIPTION}}"@, description),
            "{{TAGS}}"@,
            tags,
        ),
        "{{URL}}"@,
        url,
    )
}

/// Fills in a page header template: `{{TITLE}}`, `{{DESCRIPTION}}`, `{{TAGS}}`
/// and `{{URL}}` are replaced, in that order.
pub fn generate_header(header: &str, title: &str, description: &str, tags: &str, url: &str) -> (r: String)
    ensures
        r@ == header_page(header@, title@, description@, tags@, url@),
{
    proof {
        reveal_strlit("{{TITLE}}");
        reveal_strlit("{{DESCRIPTION}}");
        reveal_strlit("{{TAGS}}");
        reveal_strlit("{{URL}}");
    }
    let a = replace(header, "{{TITLE}}", title);
    let b = replace(a.as_str(), "{{DESCRIPTION}}", description);
    let c = replace(b.as_str(), "{{TAGS}}", tags);
    replace(c.as_str(), "{{URL}}", url)
}

/// The strings joined with `sep` between each two.
pub open spec fn joined(items: Seq<Seq<char>>, sep: Seq<char>) -> Seq<char>
    decreases items.len(),
{
    if items.len() == 0 {
        Seq::empty()
    } else if items.len() == 1 {
        items[0]
    } else {
        joined(items.drop_last(), sep) + sep + items.last()
    }
}

/// The strings of a list joined with `sep` between each two (`[String]::join`).
pub fn join(items: &StringList, sep: &str) -> (r: String)
    ensures
        r@ == joined(string_items(*items), sep@),
{
    let n = items.len();
    let mut out = String::new();
    let mut i: usize = 0;
    while i < n
        invariant
            n == string_items(*items).len(),
            i <= n,
            out@ == joined(string_items(*items).take(i as int), sep@),
        decreases n - i,
    {
        let ghost prefix = string_items(*items).take(i as int);
        if i > 0 {
            out.append(sep);
        }
        out.append(items.get(i).as_str());
        proof {
            let next = string_items(*items).take(i + 1);
            assert(next.drop_last() =~= prefix);
            if i == 0 {
                assert(Seq::<char>::empty() + next[0] == next[0]);
            }
        }
        i = i + 1;
    }
    proof {
        assert(string_items(*items).take(n as int) =~= string_items(*items));
    }
    out
}

/// The description in an article's header: its subtitle, or `Blogpost`.
pub open spec fn header_description(m: MetadataModel) -> Seq<char> {
    match m.subtitle {
        Some(s) => s,
        None => "Blogpost"@,
    }
}

/// The keywords in an article's header: its tags joined with `, `, or
/// `blog, blogpost, article`.
pub open spec fn header_tags(m: MetadataModel) -> Seq<char> {
    match m.tags {
        Some(t) => joined(t, ", "@),
        None => "blog, blogpost, article"@,
    }
}

/// An article's label in the lists of articles: its linked title, its subtitle
/// and its date.
pub open spec fn label_html(m: MetadataModel, link: Seq<char>, date: Timestamp) -> Seq<char> {
    "<h2 class=\"header-link\"><a href=\""@ + link + "\">"@ + m.title + "</a></h2>"@
        + (match m.subtitle {
            Some(s) => s + "<br>"@,
            None => Seq::empty(),
        })
        + "<small class=\"article-date\">"@ + long_date_text(date.secs, date.nanos) + "</small>"@
}

impl Metadata {
    /// The page header of the article at `url`, from the header template.
    pub fn generate_header(&self, header: &str, url: &str) -> (r: String)
        ensures
            r@ == header_page(header@, self@.title, header_description(self@), header_tags(self@), url@),
    {
        let description = match &self.subtitle {
            Some(s) => s.as_str(),
            None => "Blogpost",
        };
        let tags = match &self.tags {
            Some(tags) => join(tags, ", "),
            None => "blog, blogpost, article".to_owned(),
        };
        generate_header(header, self.title.as_str(), description, tags.as_str(), url)
    }

    /// The article's label in the lists of articles.
    pub fn label(&self, link: &str, date: &Timestamp) -> (r: String)
        requires
            date.valid(),
        ensures
            r@ == label_html(self@, link@, *date),
    {
        let mut label = String::new();
        label.append("<h2 class=\"header-link\"><a href=\"");
        label.append(link);
        label.append("\">");
        label.append(self.title.as_str());
        label.append("</a></h2>");
        let ghost before = label@;
        if let Some(subtitle) = &self.subtitle {
            label.append(subtitle.as_str());
            label.append("<br>");
        } else {
            assert(before + Seq::<char>::empty() == before);
        }
        label.append("<small class=\"article-date\">");
        let date_text = format_long_date(date);
        label.append(date_text.as_str());
        label.append("</small>");
        label
    }
}

// Articles

/// An article ready to be listed: its front matter, its date (the front matter's
/// date, else the time its source was modified), its URL relative to the site
/// and the time its source was modified.
#[derive(Clone, Debug)]
pub struct ArticleBuild {
    pub metadata: Metadata,
    pub datetime: Timestamp,
    pub rel_url: String,
    pub modified: Timestamp,
}

impl ArticleBuild {
    /// An article dated by its front matter, or by its source's modification time
    /// when the front matter gives no date.
    pub fn new(metadata: Metadata, rel_url: String, modified: Timestamp) -> (r: ArticleBuild)
        ensures
            r.metadata == metadata,
            r.rel_url == rel_url,
            r.modified == modified,
            r.datetime == match metadata.date {
                Some(d) => d,
                None => modified,
            },
    {
        let datetime = match metadata.date {
            Some(d) => d,
            None => modified,
        };
        ArticleBuild { metadata, datetime, rel_url, modified }
    }
}

/// `p` lists each of `0..n` exactly once.
pub open spec fn is_permutation(p: Seq<int>, n: int) -> bool {
    &&& p.len() == n
    &&& forall|k: int| 0 <= k < n ==> 0 <= #[trigger] p[k] < n
    &&& forall|x: int, y: int| 0 <= x < y < n ==> p[x] != p[y]
}

/// `r` is `a` ordered newest first, articles of the same date keeping their order
/// (as a stable sort gives it); `p` says where each article of `r` was in `a`.
pub open spec fn sorted_newest_first(a: Seq<ArticleBuild>, r: Seq<ArticleBuild>, p: Seq<int>) -> bool {
    &&& r.len() == a.len()
    &&& is_permutation(p, a.len() as int)
    &&& forall|k: int| 0 <= k < r.len() ==> r[k] == a[#[trigger] p[k]]
    &&& forall|x: int, y: int| 0 <= x < y < r.len() ==> !(#[trigger] r[x].datetime).before(#[trigger] r[y].datetime)
    &&& forall|x: int, y: int| 0 <= x < y < r.len() && r[x].datetime == r[y].datetime ==> #[trigger] p[x] < #[trigger] p[y]
}

/// Orders articles newest first; articles of the same date keep their order.
pub fn sort_newest_first(articles: Vec<ArticleBuild>) -> (r: Vec<ArticleBuild>)
    ensures
        exists|p: Seq<int>| sorted_newest_first(articles@, r@, p),
{
    let ghost a = articles@;
    let mut rest = articles;
    let mut r: Vec<ArticleBuild> = Vec::new();
    let ghost mut p: Seq<int> = Seq::empty();
    while rest.len() > 0
        invariant
            rest@ == a.take(rest@.len() as int),
            rest@.len() <= a.len(),
            r@.len() == a.len() - rest@.len(),
            p.len() == r@.len(),
            forall|k: int| 0 <= k < p.len() ==> rest@.len() <= #[trigger] p[k] < a.len(),
            forall|x: int, y: int| 0 <= x < y < p.len() ==> p[x] != p[y],
            forall|k: int| 0 <= k < r@.len() ==> r@[k] == a[#[trigger] p[k]],
            forall|x: int, y: int| 0 <= x < y < r@.len() ==> !(#[trigger] r@[x].datetime).before(#[trigger] r@[y].datetime),
            forall|x: int, y: int| 0 <= x < y < r@.len() && r@[x].datetime == r@[y].datetime ==> #[trigger] p[x] < #[trigger] p[y],
        decreases rest@.len(),
    {
        let j = rest.len() - 1;
        let x = rest.pop().unwrap();
        assert(x == a[j as int]);
        proof {
            assert(rest@ =~= a.take(j as int));
        }
        // The first position whose article is not newer than `x`.
        let mut pos: usize = 0;
        while pos < r.len() && x.datetime.is_before(&r[pos].datetime)
            invariant
                pos <= r@.len(),
                forall|k: int| 0 <= k < pos ==> x.datetime.before(#[trigger] r@[k].datetime),
            decreases r@.len() - pos,
        {
            pos = pos + 1;
        }
        let ghost old_r = r@;
        let ghost old_p = p;
        r.insert(pos, x);
        proof {
            old_r.insert_ensures(pos as int, x);
            old_p.insert_ensures(pos as int, j as int);
            p = old_p.insert(pos as int, j as int);
            assert(pos < old_r.len() ==> !x.datetime.before(old_r[pos as int].datetime));
            assert forall|k: int| 0 <= k < r@.len() implies r@[k] == a[#[trigger] p[k]] by {
                if k < pos {
                } else if k == pos {
                } else {
                    assert(r@[k] == old_r[k - 1]);
                    assert(p[k] == old_p[k - 1]);
                }
            }
            assert forall|u: int, v: int| 0 <= u < v < p.len() implies p[u] != p[v] by {
                if u < pos && v > pos {
                    assert(p[v] == old_p[v - 1]);
                } else if u > pos {
                    assert(p[u] == old_p[u - 1]);
                    assert(p[v] == old_p[v - 1]);
                } else if u == pos {
                    assert(p[v] == old_p[v - 1]);
                }
            }
            assert forall|k: int| 0 <= k < p.len() implies j <= #[trigger] p[k] < a.len() by {
                if k > pos {
                    assert(p[k] == old_p[k - 1]);
                }
            }
            assert forall|u: int, v: int| 0 <= u < v < r@.len() implies !(#[trigger] r@[u].datetime).before(#[trigger] r@[v].datetime) by {
                if v < pos {
                } else if u < pos && v == pos {
                    assert(x.datetime.before(old_r[u].datetime));
                } else if u < pos && v > pos {
                    assert(r@[v] == old_r[v - 1]);
                    assert(!old_r[u].datetime.before(old_r[v - 1].datetime));
                } else if u == pos {
                    assert(r@[v] == old_r[v - 1]);
                    assert(!old_r[pos as int].datetime.before(old_r[v - 1].datetime));
                } else {
                    assert(r@[u] == old_r[u - 1]);
                    assert(r@[v] == old_r[v - 1]);
                }
            }
            assert forall|u: int, v: int| 0 <= u < v < r@.len() && r@[u].datetime == r@[v].datetime implies #[trigger] p[u] < #[trigger] p[v] by {
                if v < pos {
                } else if u < pos && v == pos {
                    assert(x.datetime.before(old_r[u].datetime));
                } else if u < pos && v > pos {
                    assert(r@[v] == old_r[v - 1]);
                    assert(p[v] == old_p[v - 1]);
                } else if u == pos {
                    assert(p[v] == old_p[v - 1]);
                } else {
                    assert(r@[u] == old_r[u - 1]);
                    assert(r@[v] == old_r[v - 1]);
                    assert(p[u] == old_p[u - 1]);
                    assert(p[v] == old_p[v - 1]);
                }
            }
        }
    }
    proof {
        assert(sorted_newest_first(a, r@, p));
    }
    r
}

// Tags

/// The tags of an article (none when its front matter lists none).
pub open spec fn article_tags(a: ArticleBuild) -> Seq<Seq<char>> {
    match a.metadata.tags {
        Some(l) => string_items(l),
        None => Seq::empty(),
    }
}

/// One use of a tag: the index of the article, the tag and the time the
/// article's source was modified.
pub type TagUse = (usize, Seq<char>, Timestamp);

/// The uses of tags by article `i`, in the order it lists them.
pub open spec fn article_uses(a: ArticleBuild, i: usize) -> Seq<TagUse> {
    article_tags(a).map_values(|t: Seq<char>| (i, t, a.modified))
}

/// The uses of tags by a list of articles, article by article.
pub open spec fn tag_uses(arts: Seq<ArticleBuild>) -> Seq<TagUse>
    decreases arts.len(),
{
    if arts.len() == 0 {
        Seq::empty()
    } else {
        tag_uses(arts.drop_last()) + article_uses(arts.last(), (arts.len() - 1) as usize)
    }
}

/// The article index of every use of tag `t`, in order (an article that lists
/// the tag twice appears twice).
pub open spec fn uses_of(us: Seq<TagUse>, t: Seq<char>) -> Seq<usize>
    decreases us.len(),
{
    if us.len() == 0 {
        Seq::empty()
    } else if us.last().1 == t {
        uses_of(us.drop_last(), t).push(us.last().0)
    } else {
        uses_of(us.drop_last(), t)
    }
}

/// The latest modification time among the uses of tag `t` (the first of equal
/// latest times).
pub open spec fn latest_use(us: Seq<TagUse>, t: Seq<char>) -> Timestamp
    decreases us.len(),
{
    if us.len() == 0 {
        Timestamp { secs: 0, nanos: 0 }
    } else if us.last().1 == t {
        if uses_of(us.drop_last(), t).len() == 0 {
            us.last().2
        } else {
            let m = latest_use(us.drop_last(), t);
            if m.before(us.last().2) {
                us.last().2
            } else {
                m
            }
        }
    } else {
        latest_use(us.drop_last(), t)
    }
}

/// A tag with the articles that use it and the latest modification time among them.
#[derive(Clone, Debug)]
pub struct TagGroup {
    pub tag: String,
    pub indices: IndexList,
    pub modified: Timestamp,
}

/// `groups` is the map of tags the uses give: one group per tag used, ordered by
/// tag, each with the articles using it and their latest modification time.
pub open spec fn tags_map_of(groups: Seq<TagGroup>, us: Seq<TagUse>) -> bool {
    &&& forall|x: int, y: int| 0 <= x < y < groups.len() ==> text_less(#[trigger] groups[x].tag@, #[trigger] groups[y].tag@)
    &&& forall|k: int| 0 <= k < groups.len() ==> {
        &&& index_items(#[trigger] groups[k].indices) == uses_of(us, groups[k].tag@)
        &&& uses_of(us, groups[k].tag@).len() > 0
        &&& groups[k].modified == latest_use(us, groups[k].tag@)
    }
    &&& forall|j: int| 0 <= j < us.len() ==> exists|k: int| 0 <= k < groups.len() && #[trigger] groups[k].tag@ == #[trigger] us[j].1
}

/// Records one use of a tag in the map of tags.
#[verifier::spinoff_prover]
#[verifier::rlimit(40)]
fn record_tag(groups: &mut Vec<TagGroup>, tag: String, idx: usize, modified: Timestamp, Ghost(us): Ghost<Seq<TagUse>>)
    requires
        tags_map_of(old(groups)@, us),
    ensures
        tags_map_of(final(groups)@, us.push((idx, tag@, modified))),
{
    let ghost us2 = us.push((idx, tag@, modified));
    let ghost t = tag@;
    proof {
        assert(us2.drop_last() == us);
        assert(us2.last() == (idx, t, modified));
    }
    let mut pos: usize = 0;
    while pos < groups.len() && text_is_less(groups[pos].tag.as_str(), tag.as_str())
        invariant
            t == tag@,
            pos <= groups@.len(),
            forall|k: int| 0 <= k < pos ==> text_less(#[trigger] groups@[k].tag@, t),
        decreases groups@.len() - pos,
    {
        pos = pos + 1;
    }
    let ghost old_g = groups@;
    if pos < groups.len() && crate::syntex::same_text(groups[pos].tag.as_str(), tag.as_str()) {
        let mut g = groups.remove(pos);
        let ghost g0 = g;
        assert(g0 == old_g[pos as int]);
        assert(g0.tag@ == t);
        g.indices.push(idx);
        if g.modified.is_before(&modified) {
            g.modified = modified;
        }
        groups.insert(pos, g);
        proof {
            assert(groups@ =~= old_g.update(pos as int, groups@[pos as int]));
            assert forall|x: int| 0 <= x < groups@.len() implies #[trigger] groups@[x].tag@ == old_g[x].tag@ by {}
            assert forall|x: int, y: int| 0 <= x < y < groups@.len() implies text_less(#[trigger] groups@[x].tag@, #[trigger] groups@[y].tag@) by {
                assert(groups@[x].tag@ == old_g[x].tag@);
                assert(groups@[y].tag@ == old_g[y].tag@);
            }
            assert forall|k: int| 0 <= k < groups@.len() implies {
                &&& index_items(#[trigger] groups@[k].indices) == uses_of(us2, groups@[k].tag@)
                &&& uses_of(us2, groups@[k].tag@).len() > 0
                &&& groups@[k].modified == latest_use(us2, groups@[k].tag@)
            } by {
                if k == pos {
                    assert(groups@[k].tag@ == t);
                    assert(index_items(g0.indices) == uses_of(us, t));
                    assert(g0.modified == latest_use(us, t));
                    assert(uses_of(us2, t) == uses_of(us, t).push(idx));
                    assert(index_items(groups@[k].indices) == uses_of(us2, t));
                    assert(groups@[k].modified == latest_use(us2, t));
                } else {
                    assert(groups@[k] == old_g[k]);
                    if old_g[k].tag@ == t {
                        if k < pos {
                            lemma_text_less_irreflexive(t);
                        } else {
                            lemma_text_less_irreflexive(t);
                            assert(text_less(old_g[pos as int].tag@, old_g[k].tag@));
                        }
                    }
                    assert(old_g[k].tag@ != t);
                    assert(index_items(old_g[k].indices) == uses_of(us, old_g[k].tag@));
                    assert(uses_of(us2, old_g[k].tag@) == uses_of(us, old_g[k].tag@));
                    assert(latest_use(us2, old_g[k].tag@) == latest_use(us, old_g[k].tag@));
                }
            }
            assert forall|j: int| 0 <= j < us2.len() implies exists|k: int| 0 <= k < groups@.len() && #[trigger] groups@[k].tag@ == #[trigger] us2[j].1 by {
                if j < us.len() {
                    let k = choose|k: int| 0 <= k < old_g.len() && #[trigger] old_g[k].tag@ == #[trigger] us[j].1;
                    assert(groups@[k].tag@ == us2[j].1);
                } else {
                    assert(groups@[pos as int].tag@ == us2[j].1);
                }
            }
        }
    } else {
        let mut indices = IndexList::new();
        indices.push(idx);
        let g = TagGroup { tag, indices, modified };
        groups.insert(pos, g);
        proof {
            old_g.insert_ensures(pos as int, g);
            // `t` is not a tag of the map yet.
            assert forall|k: int| 0 <= k < old_g.len() implies old_g[k].tag@ != t by {
                if k < pos {
                    lemma_text_less_irreflexive(t);
                } else {
                    lemma_text_less_total(old_g[pos as int].tag@, t);
                    if k > pos {
                        lemma_text_less_transitive(t, old_g[pos as int].tag@, old_g[k].tag@);
                        lemma_text_less_irreflexive(t);
                    } else {
                        lemma_text_less_irreflexive(t);
                    }
                }
            }
            assert(uses_of(us, t).len() == 0) by {
                if uses_of(us, t).len() > 0 {
                    lemma_uses_of_member(us, t);
                    let j = choose|j: int| 0 <= j < us.len() && us[j].1 == t;
                    let k = choose|k: int| 0 <= k < old_g.len() && #[trigger] old_g[k].tag@ == #[trigger] us[j].1;
                }
            }
            assert forall|x: int, y: int| 0 <= x < y < groups@.len() implies text_less(#[trigger] groups@[x].tag@, #[trigger] groups@[y].tag@) by {
                if y < pos {
                } else if y == pos {
                } else if x < pos {
                    assert(groups@[y] == old_g[y - 1]);
                } else if x == pos {
                    assert(groups@[y] == old_g[y - 1]);
                    lemma_text_less_total(old_g[pos as int].tag@, t);
                    lemma_text_less_irreflexive(t);
                    if y - 1 > pos {
                        lemma_text_less_transitive(t, old_g[pos as int].tag@, old_g[y - 1].tag@);
                    }
                } else {
                    assert(groups@[x] == old_g[x - 1]);
                    assert(groups@[y] == old_g[y - 1]);
                }
            }
            assert forall|k: int| 0 <= k < groups@.len() implies {
                &&& index_items(#[trigger] groups@[k].indices) == uses_of(us2, groups@[k].tag@)
                &&& uses_of(us2, groups@[k].tag@).len() > 0
                &&& groups@[k].modified == latest_use(us2, groups@[k].tag@)
            } by {
                if k < pos {
                    assert(groups@[k] == old_g[k]);
                    assert(index_items(old_g[k].indices) == uses_of(us, old_g[k].tag@));
                    assert(old_g[k].tag@ != t);
                    assert(uses_of(us2, old_g[k].tag@) == uses_of(us, old_g[k].tag@));
                    assert(latest_use(us2, old_g[k].tag@) == latest_use(us, old_g[k].tag@));
                } else if k > pos {
                    assert(groups@[k] == old_g[k - 1]);
                    assert(index_items(old_g[k - 1].indices) == uses_of(us, old_g[k - 1].tag@));
                    assert(old_g[k - 1].tag@ != t);
                    assert(uses_of(us2, old_g[k - 1].tag@) == uses_of(us, old_g[k - 1].tag@));
                    assert(latest_use(us2, old_g[k - 1].tag@) == latest_use(us, old_g[k - 1].tag@));
                } else {
                    assert(uses_of(us2, t) == uses_of(us, t).push(idx));
                    assert(index_items(g.indices) =~= uses_of(us2, t));
                    assert(latest_use(us2, t) == modified);
                }
            }
            assert forall|j: int| 0 <= j < us2.len() implies exists|k: int| 0 <= k < groups@.len() && #[trigger] groups@[k].tag@ == #[trigger] us2[j].1 by {
                if j < us.len() {
                    let k = choose|k: int| 0 <= k < old_g.len() && #[trigger] old_g[k].tag@ == #[trigger] us[j].1;
                    if k < pos {
                        assert(groups@[k].tag@ == us2[j].1);
                    } else {
                        assert(groups@[k + 1].tag@ == us2[j].1);
                    }
                } else {
                    assert(groups@[pos as int].tag@ == us2[j].1);
                }
            }
        }
    }
}

/// A tag with uses has a use.
proof fn lemma_uses_of_member(us: Seq<TagUse>, t: Seq<char>)
    requires
        uses_of(us, t).len() > 0,
    ensures
        exists|j: int| 0 <= j < us.len() && us[j].1 == t,
    decreases us.len(),
{
    if us.last().1 != t {
        lemma_uses_of_member(us.drop_last(), t);
        let j = choose|j: int| 0 <= j < us.drop_last().len() && us.drop_last()[j].1 == t;
        assert(us[j].1 == t);
    } else {
        assert(us[us.len() - 1].1 == t);
    }
}

/// `u` is a use of tag `t` by article `x`.
pub open spec fn use_by(u: TagUse, x: usize, t: Seq<char>) -> bool {
    u.0 == x && u.1 == t
}

/// Some use of tag `t` among `us` is by article `x`.
pub open spec fn used_in(us: Seq<TagUse>, x: usize, t: Seq<char>) -> bool {
    exists|p: int| 0 <= p < us.len() && use_by(#[trigger] us[p], x, t)
}

/// A use of tag `t` by article `x` puts `x` among the uses of `t`, and every
/// entry among the uses of `t` comes from such a use.
proof fn lemma_uses_of_contains(us: Seq<TagUse>, t: Seq<char>)
    ensures
        forall|p: int| 0 <= p < us.len() && (#[trigger] us[p]).1 == t ==> uses_of(us, t).contains(us[p].0),
        forall|m: int| 0 <= m < uses_of(us, t).len() ==> exists|p: int| 0 <= p < us.len() && use_by(#[trigger] us[p], #[trigger] uses_of(us, t)[m], t),
    decreases us.len(),
{
    if us.len() > 0 {
        let rest = us.drop_last();
        lemma_uses_of_contains(rest, t);
        assert forall|p: int| 0 <= p < us.len() && (#[trigger] us[p]).1 == t implies uses_of(us, t).contains(us[p].0) by {
            if p < us.len() - 1 {
                assert(rest[p] == us[p]);
                let m = choose|m: int| 0 <= m < uses_of(rest, t).len() && uses_of(rest, t)[m] == us[p].0;
                assert(uses_of(us, t)[m] == us[p].0);
            } else {
                assert(uses_of(us, t).last() == us[p].0);
            }
        }
        assert forall|m: int| 0 <= m < uses_of(us, t).len() implies exists|p: int| 0 <= p < us.len() && use_by(#[trigger] us[p], #[trigger] uses_of(us, t)[m], t) by {
            if m < uses_of(rest, t).len() {
                assert(uses_of(us, t)[m] == uses_of(rest, t)[m]);
                let p = choose|p: int| 0 <= p < rest.len() && use_by(#[trigger] rest[p], uses_of(rest, t)[m], t);
                assert(us[p] == rest[p]);
            } else {
                assert(us.last().1 == t);
                assert(uses_of(us, t) == uses_of(rest, t).push(us.last().0));
                assert(uses_of(us, t)[m] == us.last().0);
                assert(us[us.len() - 1] == us.last());
                assert(use_by(us[us.len() - 1], uses_of(us, t)[m], t));
            }
        }
    }
}

/// The uses of tags by a list of articles are exactly each article's uses of
/// each tag it lists.
proof fn lemma_tag_uses(arts: Seq<ArticleBuild>)
    requires
        arts.len() <= usize::MAX,
    ensures
        forall|i: int, j: int| 0 <= i < arts.len() && 0 <= j < article_tags(arts[i]).len() ==>
            used_in(tag_uses(arts), i as usize, #[trigger] article_tags(arts[i])[j]),
        forall|p: int| 0 <= p < tag_uses(arts).len() ==> (#[trigger] tag_uses(arts)[p]).0 < arts.len()
            && article_tags(arts[tag_uses(arts)[p].0 as int]).contains(tag_uses(arts)[p].1),
    decreases arts.len(),
{
    if arts.len() > 0 {
        let rest = arts.drop_last();
        let n = arts.len() - 1;
        lemma_tag_uses(rest);
        let pre = tag_uses(rest);
        let last = article_uses(arts.last(), n as usize);
        assert(tag_uses(arts) == pre + last);
        assert forall|i: int, j: int| 0 <= i < arts.len() && 0 <= j < article_tags(arts[i]).len() implies
            used_in(tag_uses(arts), i as usize, #[trigger] article_tags(arts[i])[j]) by {
            if i < n {
                assert(rest[i] == arts[i]);
                assert(article_tags(rest[i])[j] == article_tags(arts[i])[j]);
                assert(used_in(pre, i as usize, article_tags(rest[i])[j]));
                let p = choose|p: int| 0 <= p < pre.len() && use_by(#[trigger] pre[p], i as usize, article_tags(rest[i])[j]);
                assert(tag_uses(arts)[p] == pre[p]);
            } else {
                assert(arts.last() == arts[i]);
                assert(last[j] == (n as usize, article_tags(arts.last())[j], arts.last().modified));
                assert(tag_uses(arts)[pre.len() + j] == last[j]);
                assert(use_by(tag_uses(arts)[pre.len() + j], i as usize, article_tags(arts[i])[j]));
            }
        }
        assert forall|p: int| 0 <= p < tag_uses(arts).len() implies (#[trigger] tag_uses(arts)[p]).0 < arts.len()
            && article_tags(arts[tag_uses(arts)[p].0 as int]).contains(tag_uses(arts)[p].1) by {
            if p < pre.len() {
                assert(tag_uses(arts)[p] == pre[p]);
                assert(rest[pre[p].0 as int] == arts[pre[p].0 as int]);
            } else {
                let j = p - pre.len();
                assert(tag_uses(arts)[p] == last[j]);
                assert(article_tags(arts[n])[j] == last[j].1);
            }
        }
    }
}

/// The map of tags of a list of articles links each tag an article lists to
/// that article, and links a tag only to articles that list it: a tag's page
/// shows exactly the articles tagged with it.
pub proof fn law_tag_groups_list_tagged_articles(groups: Seq<TagGroup>, arts: Seq<ArticleBuild>)
    requires
        arts.len() <= usize::MAX,
        tags_map_of(groups, tag_uses(arts)),
    ensures
        forall|i: int, j: int| 0 <= i < arts.len() && 0 <= j < article_tags(arts[i]).len() ==>
            exists|k: int| 0 <= k < groups.len() && #[trigger] groups[k].tag@ == #[trigger] article_tags(arts[i])[j]
                && index_items(groups[k].indices).contains(i as usize),
        forall|k: int, m: int| 0 <= k < groups.len() && 0 <= m < index_items(groups[k].indices).len() ==>
            (#[trigger] index_items(#[trigger] groups[k].indices)[m]) < arts.len()
            && article_tags(arts[index_items(groups[k].indices)[m] as int]).contains(groups[k].tag@),
{
    let us = tag_uses(arts);
    lemma_tag_uses(arts);
    assert forall|i: int, j: int| 0 <= i < arts.len() && 0 <= j < article_tags(arts[i]).len() implies
        exists|k: int| 0 <= k < groups.len() && #[trigger] groups[k].tag@ == #[trigger] article_tags(arts[i])[j]
            && index_items(groups[k].indices).contains(i as usize) by {
        let t = article_tags(arts[i])[j];
        assert(used_in(us, i as usize, t));
        let p = choose|p: int| 0 <= p < us.len() && use_by(#[trigger] us[p], i as usize, t);
        let k = choose|k: int| 0 <= k < groups.len() && #[trigger] groups[k].tag@ == #[trigger] us[p].1;
        lemma_uses_of_contains(us, t);
        assert(index_items(groups[k].indices) == uses_of(us, t));
        assert(uses_of(us, t).contains(us[p].0));
    }
    assert forall|k: int, m: int| 0 <= k < groups.len() && 0 <= m < index_items(groups[k].indices).len() implies
        (#[trigger] index_items(#[trigger] groups[k].indices)[m]) < arts.len()
        && article_tags(arts[index_items(groups[k].indices)[m] as int]).contains(groups[k].tag@) by {
        let t = groups[k].tag@;
        lemma_uses_of_contains(us, t);
        assert(index_items(groups[k].indices) == uses_of(us, t));
        let p = choose|p: int| 0 <= p < us.len() && use_by(#[trigger] us[p], uses_of(us, t)[m], t);
        assert(us[p].0 == index_items(groups[k].indices)[m]);
    }
}

// Article pages

/// The link to a tag's page: the tag's slug names the page, its escaped text
/// is the link text.
pub open spec fn tag_link(t: Seq<char>) -> Seq<char> {
    "<a href=\""@ + slug_of(t) + ".html\">"@ + escape_text(t) + "</a>"@
}

/// The links to the pages of a list of tags, separated by `, `.
pub open spec fn tag_links(ts: Seq<Seq<char>>) -> Seq<char> {
    joined(ts.map_values(|t: Seq<char>| tag_link(t)), ", "@)
}

/// An article's label in the lists of articles, followed by the links to its
/// tags' pages when it has tags.
pub open spec fn article_label(a: ArticleBuild) -> Seq<char> {
    label_html(a.metadata@, a.rel_url@, a.datetime) + match a.metadata@.tags {
        Some(ts) => " \u{b7} "@ + tag_links(ts),
        None => Seq::empty(),
    }
}

/// The feed entry of an article: its title, subtitle, date and URL.
pub open spec fn entry_of(e: Entry, a: ArticleBuild) -> bool {
    &&& e.title@ == a.metadata.title@
    &&& crate::events::opt_view(e.subtitle) == crate::events::opt_view(a.metadata.subtitle)
    &&& e.datetime == a.datetime
    &&& e.url@ == a.rel_url@
}

/// Builds, for the articles in their listed order, each article's label, each
/// article's feed entry, and the map from each tag to the articles that use it.
pub fn generate_article_pages(articles: Vec<ArticleBuild>) -> (r: (Vec<String>, Vec<Entry>, Vec<TagGroup>))
    requires
        forall|i: int| 0 <= i < articles@.len() ==> (#[trigger] articles@[i]).datetime.valid(),
    ensures
        r.0@.len() == articles@.len(),
        r.1@.len() == articles@.len(),
        forall|i: int| 0 <= i < articles@.len() ==> #[trigger] r.0@[i]@ == article_label(articles@[i]),
        forall|i: int| 0 <= i < articles@.len() ==> entry_of(#[trigger] r.1@[i], articles@[i]),
        tags_map_of(r.2@, tag_uses(articles@)),
{
    let mut tags_map: Vec<TagGroup> = Vec::new();
    let mut labels: Vec<String> = Vec::new();
    let mut entries: Vec<Entry> = Vec::new();
    let ghost arts = articles@;
    let mut idx: usize = 0;
    while idx < articles.len()
        invariant
            arts == articles@,
            forall|i: int| 0 <= i < articles@.len() ==> (#[trigger] articles@[i]).datetime.valid(),
            idx <= articles@.len(),
            labels@.len() == idx,
            entries@.len() == idx,
            forall|i: int| 0 <= i < idx ==> #[trigger] labels@[i]@ == article_label(articles@[i]),
            forall|i: int| 0 <= i < idx ==> entry_of(#[trigger] entries@[i], articles@[i]),
            tags_map_of(tags_map@, tag_uses(articles@.take(idx as int))),
        decreases articles@.len() - idx,
    {
        let article = &articles[idx];
        let metadata = &article.metadata;
        let mut label = metadata.label(article.rel_url.as_str(), &article.datetime);
        let ghost base = label@;
        let ghost prefix_uses = tag_uses(articles@.take(idx as int));
        proof {
            assert(articles@.take(idx + 1).drop_last() =~= articles@.take(idx as int));
            assert(articles@.take(idx + 1).last() == articles@[idx as int]);
            assert(tag_uses(articles@.take(idx + 1)) == prefix_uses + article_uses(articles@[idx as int], idx));
        }
        if let Some(tags) = &metadata.tags {
            label.append(" \u{b7} ");
            let ghost ts = string_items(*tags);
            let ghost links = ts.map_values(|t: Seq<char>| tag_link(t));
            let n = tags.len();
            let mut first = true;
            let mut k: usize = 0;
            proof {
                assert(article_uses(articles@[idx as int], idx).take(0) =~= Seq::<TagUse>::empty());
                assert(prefix_uses + Seq::<TagUse>::empty() =~= prefix_uses);
            }
            while k < n
                invariant
                    n == ts.len(),
                    ts == string_items(*tags),
                    links == ts.map_values(|t: Seq<char>| tag_link(t)),
                    k <= n,
                    first == (k == 0),
                    label@ == base + " \u{b7} "@ + joined(links.take(k as int), ", "@),
                    ts == article_tags(articles@[idx as int]),
                    tags_map_of(tags_map@, prefix_uses + article_uses(articles@[idx as int], idx).take(k as int)),
                    articles@[idx as int].modified == article.modified,
                decreases n - k,
            {
                let tag = tags.get(k);
                if !first {
                    label.append(", ");
                }
                first = false;
                let slug = slugify(tag.as_str());
                let escaped = html_escape(tag.as_str());
                label.append("<a href=\"");
                label.append(slug.as_str());
                label.append(".html\">");
                label.append(escaped.as_str());
                label.append("</a>");
                proof {
                    let next = links.take(k + 1);
                    assert(next.drop_last() =~= links.take(k as int));
                    assert(next.last() == tag_link(ts[k as int]));
                    if k == 0 {
                        assert(Seq::<char>::empty() + next[0] =~= next[0]);
                    }
                    assert(label@ =~= base + " \u{b7} "@ + joined(next, ", "@));
                }
                let ghost uses_k = prefix_uses + article_uses(articles@[idx as int], idx).take(k as int);
                record_tag(&mut tags_map, tag.clone(), idx, article.modified, Ghost(uses_k));
                proof {
                    assert(article_uses(articles@[idx as int], idx).take(k + 1)
                        =~= article_uses(articles@[idx as int], idx).take(k as int).push((idx, ts[k as int], article.modified)));
                    assert(prefix_uses + article_uses(articles@[idx as int], idx).take(k + 1) =~= uses_k.push((idx, ts[k as int], article.modified)));
                }
                k = k + 1;
            }
            proof {
                assert(links.take(n as int) =~= links);
                assert(article_uses(articles@[idx as int], idx).take(n as int) =~= article_uses(articles@[idx as int], idx));
            }
        } else {
            proof {
                assert(base + Seq::<char>::empty() =~= base);
                assert(article_uses(articles@[idx as int], idx) =~= Seq::<TagUse>::empty());
                assert(prefix_uses + Seq::<TagUse>::empty() =~= prefix_uses);
            }
        }
        labels.push(label);
        entries.push(Entry {
            title: metadata.title.clone(),
            subtitle: metadata.subtitle.clone(),
            datetime: article.datetime,
            url: article.rel_url.clone(),
        });
        idx = idx + 1;
    }
    proof {
        assert(articles@.take(articles@.len() as int) =~= articles@);
    }
    (labels, entries, tags_map)
}

// Index and tag pages

/// The `<li>` lines of a list of labels, one per label.
pub open spec fn label_lines(labels: Seq<Seq<char>>) -> Seq<char>
    decreases labels.len(),
{
    if labels.len() == 0 {
        Seq::empty()
    } else {
        label_lines(labels.drop_last()) + "<li>"@ + labels.last() + "</li>\n"@
    }
}

/// The page listing every article: the header, a heading, the labels as a list,
/// the footer.
pub open spec fn articles_index_page(template: Seq<char>, footer: Seq<char>, labels: Seq<Seq<char>>) -> Seq<char> {
    header_page(template, "Articles"@, "List of all articles"@, "blog, blogpost, articles"@, "articles.html"@)
        + "<h1>Articles</h1><hr>"@ + "<ul>\n"@ + label_lines(labels) + "</ul>\n"@ + footer
}

/// The characters of each string of a list.
pub open spec fn texts(v: Seq<String>) -> Seq<Seq<char>> {
    v.map_values(|s: String| s@)
}

/// Appends the `<li>` line of each label.
fn push_label_lines(out: &mut String, labels: &Vec<String>)
    ensures
        final(out)@ == old(out)@ + label_lines(texts(labels@)),
{
    let ghost start = out@;
    let mut i: usize = 0;
    proof {
        assert(texts(labels@.take(0)) =~= Seq::<Seq<char>>::empty());
        assert(start + Seq::<char>::empty() =~= start);
    }
    while i < labels.len()
        invariant
            i <= labels@.len(),
            out@ == start + label_lines(texts(labels@.take(i as int))),
        decreases labels@.len() - i,
    {
        out.append("<li>");
        out.append(labels[i].as_str());
        out.append("</li>\n");
        proof {
            let next = texts(labels@.take(i + 1));
            assert(next.drop_last() =~= texts(labels@.take(i as int)));
            assert(next.last() == labels@[i as int]@);
            assert(out@ =~= start + label_lines(next));
        }
        i = i + 1;
    }
    proof {
        assert(labels@.take(labels@.len() as int) =~= labels@);
    }
}

/// The page listing every article.
pub fn articles_index_html(header: &str, footer: &str, labels: &Vec<String>) -> (r: String)
    ensures
        r@ == articles_index_page(header@, footer@, texts(labels@)),
{
    let mut page = generate_header(header, "Articles", "List of all articles", "blog, blogpost, articles", "articles.html");
    page.append("<h1>Articles</h1><hr>");
    page.append("<ul>\n");
    push_label_lines(&mut page, labels);
    page.append("</ul>\n");
    page.append(footer);
    page
}

/// The `<li>` link line of each tag.
pub open spec fn tag_lines(tags: Seq<Seq<char>>) -> Seq<char>
    decreases tags.len(),
{
    if tags.len() == 0 {
        Seq::empty()
    } else {
        tag_lines(tags.drop_last()) + "<li>"@ + tag_link(tags.last()) + "</li>\n"@
    }
}

/// The tags of a map of tags, in its order.
pub open spec fn group_tags(groups: Seq<TagGroup>) -> Seq<Seq<char>> {
    groups.map_values(|g: TagGroup| g.tag@)
}

/// The page listing every tag: the header, a heading, a link to each tag's page,
/// the footer.
pub open spec fn tags_index_page(template: Seq<char>, footer: Seq<char>, tags: Seq<Seq<char>>) -> Seq<char> {
    header_page(template, "Tags"@, "Page for tags and tagged articles"@, "blog, blogpost, tags"@, "tags.html"@)
        + "<h1>Tags</h1><hr>"@ + "<ul>\n"@ + tag_lines(tags) + "</ul>\n"@ + footer
}

/// The page listing every tag.
pub fn tags_index_html(header: &str, footer: &str, tags_map: &Vec<TagGroup>) -> (r: String)
    ensures
        r@ == tags_index_page(header@, footer@, group_tags(tags_map@)),
{
    let mut page = generate_header(header, "Tags", "Page for tags and tagged articles", "blog, blogpost, tags", "tags.html");
    page.append("<h1>Tags</h1><hr>");
    page.append("<ul>\n");
    let ghost start = page@;
    let mut i: usize = 0;
    proof {
        assert(group_tags(tags_map@.take(0)) =~= Seq::<Seq<char>>::empty());
        assert(start + Seq::<char>::empty() =~= start);
    }
    while i < tags_map.len()
        invariant
            i <= tags_map@.len(),
            page@ == start + tag_lines(group_tags(tags_map@.take(i as int))),
        decreases tags_map@.len() - i,
    {
        let tag = tags_map[i].tag.as_str();
        page.append("<li>");
        page.append("<a href=\"");
        page.append(slugify(tag).as_str());
        page.append(".html\">");
        page.append(html_escape(tag).as_str());
        page.append("</a>");
        page.append("</li>\n");
        proof {
            let next = group_tags(tags_map@.take(i + 1));
            assert(next.drop_last() =~= group_tags(tags_map@.take(i as int)));
            assert(next.last() == tags_map@[i as int].tag@);
            assert(page@ =~= start + tag_lines(next));
        }
        i = i + 1;
    }
    proof {
        assert(tags_map@.take(tags_map@.len() as int) =~= tags_map@);
    }
    page.append("</ul>\n");
    page.append(footer);
    page
}

/// The URL of a tag's page, relative to the site: its slug with `.html`.
pub open spec fn tag_url(tag: Seq<char>) -> Seq<char> {
    slug_of(tag) + ".html"@
}

/// The URL of a tag's page, relative to the site.
pub fn tag_page_url(tag: &str) -> (r: String)
    ensures
        r@ == tag_url(tag@),
{
    let mut url = slugify(tag);
    url.append(".html");
    url
}

/// The labels at the given indices.
pub open spec fn labels_at(labels: Seq<Seq<char>>, indices: Seq<usize>) -> Seq<Seq<char>> {
    indices.map_values(|i: usize| labels[i as int])
}

/// A tag's page: the header (the escaped tag as title and keyword), the tag as
/// heading, the labels of the articles using it, the footer.
pub open spec fn tag_page(template: Seq<char>, footer: Seq<char>, tag: Seq<char>, labels: Seq<Seq<char>>) -> Seq<char> {
    let escaped = escape_text(tag);
    header_page(template, escaped, "Articles tagged "@ + escaped, "blog, blogpost, "@ + escaped, tag_url(tag))
        + "<h1>"@ + escaped + "</h1><hr>"@ + "<ul>\n"@ + label_lines(labels) + "</ul>\n"@ + footer
}

/// A tag's page.
pub fn tag_page_html(header: &str, footer: &str, group: &TagGroup, labels: &Vec<String>) -> (r: String)
    requires
        forall|k: int| 0 <= k < index_items(group.indices).len() ==> #[trigger] index_items(group.indices)[k] < labels@.len(),
    ensures
        r@ == tag_page(header@, footer@, group.tag@, labels_at(texts(labels@), index_items(group.indices))),
{
    let escaped = html_escape(group.tag.as_str());
    let url = tag_page_url(group.tag.as_str());
    let mut description = "Articles tagged ".to_owned();
    description.append(escaped.as_str());
    let mut keywords = "blog, blogpost, ".to_owned();
    keywords.append(escaped.as_str());
    let mut page = generate_header(header, escaped.as_str(), description.as_str(), keywords.as_str(), url.as_str());
    page.append("<h1>");
    page.append(escaped.as_str());
    page.append("</h1><hr>");
    page.append("<ul>\n");
    let ghost start = page@;
    let ghost ids = index_items(group.indices);
    let ghost ls = texts(labels@);
    let n = group.indices.len();
    let mut k: usize = 0;
    proof {
        assert(labels_at(ls, ids.take(0)) =~= Seq::<Seq<char>>::empty());
        assert(start + Seq::<char>::empty() =~= start);
    }
    while k < n
        invariant
            n == ids.len(),
            ids == index_items(group.indices),
            ls == texts(labels@),
            forall|j: int| 0 <= j < ids.len() ==> #[trigger] ids[j] < labels@.len(),
            k <= n,
            page@ == start + label_lines(labels_at(ls, ids.take(k as int))),
        decreases n - k,
    {
        let idx = group.indices.get(k);
        page.append("<li>");
        page.append(labels[idx].as_str());
        page.append("</li>\n");
        proof {
            let next = labels_at(ls, ids.take(k + 1));
            assert(next.drop_last() =~= labels_at(ls, ids.take(k as int)));
            assert(next.last() == labels@[idx as int]@);
            assert(page@ =~= start + label_lines(next));
        }
        k = k + 1;
    }
    proof {
        assert(ids.take(n as int) =~= ids);
    }
    page.append("</ul>\n");
    page.append(footer);
    page
}

/// Whether a generated page is newer than its source, so that it need not be
/// written again: it exists and was modified after the source.
pub open spec fn output_is_fresh(output_modified: Option<Timestamp>, source_modified: Timestamp) -> bool {
    match output_modified {
        Some(t) => source_modified.before(t),
        None => false,
    }
}

/// Whether a generated page is newer than its source (given the page's
/// modification time, `None` when it does not exist).
pub fn is_output_fresh(output_modified: Option<Timestamp>, source_modified: Timestamp) -> (r: bool)
    ensures
        r == output_is_fresh(output_modified, source_modified),
{
    match output_modified {
        Some(t) => source_modified.is_before(&t),
        None => false,
    }
}

// Site

/// The site's index pages.
pub open spec fn index_pages() -> Seq<Seq<char>> {
    seq!["index.html"@, "articles.html"@, "tags.html"@]
}

/// The site's feeds.
pub open spec fn feed_files() -> Seq<Seq<char>> {
    seq!["atom.xml"@, "sitemap.xml"@]
}

/// The static files the site keeps.
pub open spec fn static_files() -> Seq<Seq<char>> {
    seq![
        "favicon.ico"@,
        "llms.txt"@,
        "preview.jpg"@,
        "robots.txt"@,
        "styles.css"@,
        "tokyonight_day.css"@,
        "tokyonight_night.css"@,
        "google4df97f25ec131b90.html"@,
        "03_gemv.html"@,
    ]
}

/// Every path the output directory keeps: the index pages, the feeds, the static
/// files, the followed sources' outputs and the tag pages.
pub open spec fn retained(sources: Seq<Seq<char>>, tag_paths: Seq<Seq<char>>) -> Seq<Seq<char>> {
    index_pages() + feed_files() + static_files() + sources + tag_paths
}

/// Cleaning the output directory never removes what the site produced or keeps:
/// an index page, a feed, a static file, the output of a followed source or a
/// tag page is among the retained paths, so it is never stale.
pub proof fn law_outputs_are_kept(sources: Seq<Seq<char>>, tag_paths: Seq<Seq<char>>, rel: Seq<char>)
    requires
        index_pages().contains(rel) || feed_files().contains(rel) || static_files().contains(rel)
            || sources.contains(rel) || tag_paths.contains(rel),
    ensures
        retained(sources, tag_paths).contains(rel),
{
    let r = retained(sources, tag_paths);
    let a = index_pages();
    let b = a + feed_files();
    let c = b + static_files();
    let d = c + sources;
    assert(r == d + tag_paths);
    if a.contains(rel) {
        let i = choose|i: int| 0 <= i < a.len() && a[i] == rel;
        assert(r[i] == rel);
    } else if feed_files().contains(rel) {
        let i = choose|i: int| 0 <= i < feed_files().len() && feed_files()[i] == rel;
        assert(r[a.len() + i] == rel);
    } else if static_files().contains(rel) {
        let i = choose|i: int| 0 <= i < static_files().len() && static_files()[i] == rel;
        assert(r[b.len() + i] == rel);
    } else if sources.contains(rel) {
        let i = choose|i: int| 0 <= i < sources.len() && sources[i] == rel;
        assert(r[c.len() + i] == rel);
    } else {
        let i = choose|i: int| 0 <= i < tag_paths.len() && tag_paths[i] == rel;
        assert(r[d.len() + i] == rel);
    }
}

/// Every file a build writes is kept when the output directory is cleaned: the
/// home page, the lists of articles and tags, the Atom feed, the sitemap, every
/// followed source's output and every tag page, whatever the sources and tags.
pub proof fn law_generated_files_are_kept(sources: Seq<Seq<char>>, tag_paths: Seq<Seq<char>>)
    ensures
        retained(sources, tag_paths).contains("index.html"@),
        retained(sources, tag_paths).contains("articles.html"@),
        retained(sources, tag_paths).contains("tags.html"@),
        retained(sources, tag_paths).contains("atom.xml"@),
        retained(sources, tag_paths).contains("sitemap.xml"@),
        forall|i: int| 0 <= i < sources.len() ==> retained(sources, tag_paths).contains(#[trigger] sources[i]),
        forall|i: int| 0 <= i < tag_paths.len() ==> retained(sources, tag_paths).contains(#[trigger] tag_paths[i]),
{
    let r = retained(sources, tag_paths);
    let c = index_pages() + feed_files() + static_files();
    assert(r[0] == "index.html"@);
    assert(r[1] == "articles.html"@);
    assert(r[2] == "tags.html"@);
    assert(r[3] == "atom.xml"@);
    assert(r[4] == "sitemap.xml"@);
    assert forall|i: int| 0 <= i < sources.len() implies r.contains(#[trigger] sources[i]) by {
        assert(r[c.len() + i] == sources[i]);
    }
    assert forall|i: int| 0 <= i < tag_paths.len() implies r.contains(#[trigger] tag_paths[i]) by {
        assert(r[c.len() + sources.len() + i] == tag_paths[i]);
    }
}

/// Appends copies of the strings to a list.
fn extend_strings(out: &mut Vec<String>, items: &Vec<String>)
    ensures
        texts(final(out)@) == texts(old(out)@) + texts(items@),
{
    let ghost start = texts(out@);
    let mut i: usize = 0;
    proof {
        assert(texts(items@.take(0)) =~= Seq::<Seq<char>>::empty());
        assert(start + Seq::<Seq<char>>::empty() =~= start);
    }
    while i < items.len()
        invariant
            i <= items@.len(),
            texts(out@) == start + texts(items@.take(i as int)),
        decreases items@.len() - i,
    {
        let ghost before = out@;
        out.push(items[i].clone());
        proof {
            assert(texts(out@) =~= texts(before).push(items@[i as int]@));
            assert(texts(items@.take(i + 1)) =~= texts(items@.take(i as int)).push(items@[i as int]@));
        }
        i = i + 1;
    }
    proof {
        assert(items@.take(items@.len() as int) =~= items@);
    }
}

/// Appends the given literal strings to a list.
fn push_all(out: &mut Vec<String>, items: &[&str])
    ensures
        texts(final(out)@) == texts(old(out)@) + items@.map_values(|s: &str| s@),
{
    let ghost start = texts(out@);
    let mut i: usize = 0;
    proof {
        assert(items@.take(0).map_values(|s: &str| s@) =~= Seq::<Seq<char>>::empty());
        assert(start + Seq::<Seq<char>>::empty() =~= start);
    }
    while i < items.len()
        invariant
            i <= items@.len(),
            texts(out@) == start + items@.take(i as int).map_values(|s: &str| s@),
        decreases items@.len() - i,
    {
        let ghost before = out@;
        out.push(items[i].to_owned());
        proof {
            assert(texts(out@) =~= texts(before).push(items@[i as int]@));
            assert(items@.take(i + 1).map_values(|s: &str| s@) =~= items@.take(i as int).map_values(|s: &str| s@).push(items@[i as int]@));
        }
        i = i + 1;
    }
    proof {
        assert(items@.take(items@.len() as int) =~= items@);
    }
}

/// Every path the output directory keeps, relative to it.
pub fn retained_paths(sources: &Vec<String>, tag_paths: &Vec<String>) -> (r: Vec<String>)
    ensures
        texts(r@) == retained(texts(sources@), texts(tag_paths@)),
{
    let mut retain: Vec<String> = Vec::new();
    proof {
        assert(texts(retain@) =~= Seq::<Seq<char>>::empty());
    }
    let indexes: [&str; 3] = ["index.html", "articles.html", "tags.html"];
    let feeds: [&str; 2] = ["atom.xml", "sitemap.xml"];
    let statics: [&str; 9] = [
        "favicon.ico",
        "llms.txt",
        "preview.jpg",
        "robots.txt",
        "styles.css",
        "tokyonight_day.css",
        "tokyonight_night.css",
        "google4df97f25ec131b90.html",
        "03_gemv.html",
    ];
    push_all(&mut retain, indexes.as_slice());
    push_all(&mut retain, feeds.as_slice());
    push_all(&mut retain, statics.as_slice());
    extend_strings(&mut retain, sources);
    extend_strings(&mut retain, tag_paths);
    proof {
        assert(indexes@.map_values(|s: &str| s@) =~= index_pages());
        assert(feeds@.map_values(|s: &str| s@) =~= feed_files());
        assert(statics@.map_values(|s: &str| s@) =~= static_files());
        assert(Seq::<Seq<char>>::empty() + index_pages() =~= index_pages());
    }
    retain
}

/// Whether a list of strings holds one with the characters of `s`.
pub fn contains_text(items: &Vec<String>, s: &str) -> (r: bool)
    ensures
        r == texts(items@).contains(s@),
{
    let mut i: usize = 0;
    while i < items.len()
        invariant
            i <= items@.len(),
            forall|j: int| 0 <= j < i ==> items@[j]@ != s@,
        decreases items@.len() - i,
    {
        if crate::syntex::same_text(items[i].as_str(), s) {
            assert(texts(items@)[i as int] == s@);
            return true;
        }
        i = i + 1;
    }
    proof {
        if texts(items@).contains(s@) {
            let j = choose|j: int| 0 <= j < texts(items@).len() && texts(items@)[j] == s@;
            assert(items@[j]@ == s@);
        }
    }
    false
}

/// Whether an output file (its path relative to the output directory) is stale
/// and to be removed: a path other than the directory itself that the site does
/// not keep.
pub fn is_stale(rel: &str, expected: &Vec<String>) -> (r: bool)
    ensures
        r == (rel@.len() > 0 && !texts(expected@).contains(rel@)),
{
    rel.unicode_len() > 0 && !contains_text(expected, rel)
}

} // verus!
