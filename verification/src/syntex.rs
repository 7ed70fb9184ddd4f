use vstd::prelude::*;
use crate::strings::replace_all;
use crate::events::{CodeKind, PageEvent, EventModel, EventStream, MetadataKind, StartTag, EndTag, TagModel};

verus! {

// Math

#[verifier::external_type_specification]
#[verifier::external_body]
pub struct ExStorage(pulldown_latex::Storage);

#[verifier::external_type_specification]
#[verifier::external_body]
pub struct ExIoError(std::io::Error);

/// How a formula is laid out.
#[derive(Clone, Copy, PartialEq, Eq, Debug)]
pub enum DisplayMode {
    /// Within a line of text.
    Inline,
    /// As a block of its own.
    Block,
}

/// What `pulldown_latex::push_mathml` produces for a LaTeX formula rendered with the
/// default configuration in the given display mode (`None` when it fails).
pub uninterp spec fn mathml_output(latex: Seq<char>, mode: DisplayMode) -> Option<Seq<char>>;

/// `pulldown_latex::Storage::new`: fresh scratch memory for the LaTeX parser.
#[verifier::external_body]
pub(crate) fn new_storage() -> pulldown_latex::Storage {
    pulldown_latex::Storage::new()
}

/// `pulldown_latex::Storage::reset`: frees the parser's scratch memory.
#[verifier::external_body]
fn reset_storage(storage: &mut pulldown_latex::Storage) {
    storage.reset()
}

/// `pulldown_latex::push_mathml` on a parser over `latex`, with the default
/// render configuration in the given display mode: the MathML text, or the
/// writer's error; both named by `mathml_output`.
#[verifier::external_body]
fn push_mathml(latex: &str, storage: &pulldown_latex::Storage, mode: DisplayMode) -> (r: Result<String, std::io::Error>)
    ensures
        match r {
            Ok(s) => mathml_output(latex@, mode) == Some(s@),
            Err(_) => mathml_output(latex@, mode) is None,
        },
{
    let display_mode = match mode {
        DisplayMode::Inline => pulldown_latex::config::DisplayMode::Inline,
        DisplayMode::Block => pulldown_latex::config::DisplayMode::Block,
    };
    let config = pulldown_latex::RenderConfig { display_mode, ..Default::default() };
    let mut mathml = String::new();
    pulldown_latex::push_mathml(&mut mathml, pulldown_latex::Parser::new(latex, storage), config).map(|_| mathml)
}

#[verifier::external_type_specification]
#[verifier::external_body]
pub struct ExHtmlLinkedBuilderError(lumis::formatter::html_linked::HtmlLinkedBuilderError);

/// Why rendering a formula or highlighting code failed.
#[derive(Debug)]
pub enum RenderError {
    /// Writing the MathML failed.
    Math(std::io::Error),
    /// The highlighter could not be configured.
    Highlight(lumis::formatter::html_linked::HtmlLinkedBuilderError),
}

/// Renders a LaTeX formula as MathML in the given display mode, then frees the
/// parser's scratch memory.
pub fn latex_to_mathml(latex: &str, storage: &mut pulldown_latex::Storage, display_mode: DisplayMode) -> (r: Result<String, RenderError>)
    ensures
        match r {
            Ok(s) => mathml_output(latex@, display_mode) == Some(s@),
            Err(e) => mathml_output(latex@, display_mode) is None && e is Math,
        },
{
    match push_mathml(latex, storage, display_mode) {
        Ok(mathml) => {
            reset_storage(storage);
            Ok(mathml)
        },
        Err(e) => Err(RenderError::Math(e)),
    }
}

// Code

/// The languages code blocks are highlighted in.
#[derive(Clone, Copy, PartialEq, Eq, Debug)]
pub enum CodeLanguage {
    Rust,
    Python,
    LaTeX,
    Html,
    PlainText,
}

/// The language of a code block's info string.
pub open spec fn language_of(tag: Seq<char>) -> CodeLanguage {
    if tag == "rust"@ || tag == "rs"@ {
        CodeLanguage::Rust
    } else if tag == "python"@ || tag == "py"@ {
        CodeLanguage::Python
    } else if tag == "latex"@ || tag == "tex"@ {
        CodeLanguage::LaTeX
    } else if tag == "html"@ {
        CodeLanguage::Html
    } else {
        CodeLanguage::PlainText
    }
}

/// Whether two strings hold the same characters.
pub fn same_text(a: &str, b: &str) -> (r: bool)
    ensures
        r == (a@ == b@),
{
    a.to_owned() == b.to_owned()
}

/// The language of a code block's info string.
pub fn code_language(tag: &str) -> (r: CodeLanguage)
    ensures
        r == language_of(tag@),
{
    if same_text(tag, "rust") || same_text(tag, "rs") {
        CodeLanguage::Rust
    } else if same_text(tag, "python") || same_text(tag, "py") {
        CodeLanguage::Python
    } else if same_text(tag, "latex") || same_text(tag, "tex") {
        CodeLanguage::LaTeX
    } else if same_text(tag, "html") {
        CodeLanguage::Html
    } else {
        CodeLanguage::PlainText
    }
}

/// The name lumis gives a language in the class of a code block.
pub open spec fn language_id(lang: CodeLanguage) -> Seq<char> {
    match lang {
        CodeLanguage::Rust => "rust"@,
        CodeLanguage::Python => "python"@,
        CodeLanguage::LaTeX => "latex"@,
        CodeLanguage::Html => "html"@,
        CodeLanguage::PlainText => "plaintext"@,
    }
}

/// The `pre` tag a lumis block opens with: of class `lumis`, and marked with
/// `data-lumis-budget` when a time or match limit cut the highlighting short.
pub open spec fn lumis_pre_tag(s: Seq<char>) -> bool {
    ||| s == "<pre class=\"lumis\">"@
    ||| s == "<pre class=\"lumis\" data-lumis-budget=\"time\">"@
    ||| s == "<pre class=\"lumis\" data-lumis-budget=\"matches\">"@
}

/// The `code` tag of a lumis block in the language.
pub open spec fn code_open(lang: CodeLanguage) -> Seq<char> {
    "<code class=\"language-"@ + language_id(lang) + "\" translate=\"no\" tabindex=\"0\">"@
}

/// `html` is a highlighted block of code in the language: a `pre` tag, the `code`
/// tag of the language, the highlighted lines, `</code></pre>`.
pub open spec fn highlighted_block(html: Seq<char>, lang: CodeLanguage) -> bool {
    exists|pre: Seq<char>, lines: Seq<char>| lumis_pre_tag(pre) && html == pre + code_open(lang) + lines + "</code></pre>"@
}

/// What a reader sees of HTML text: tags left out, and the entities lumis writes
/// (`&amp;`, `&lt;`, `&gt;`, `&quot;`, `&#39;`) read as their characters.
pub open spec fn visible_text(s: Seq<char>, in_tag: bool) -> Seq<char>
    decreases s.len(),
{
    if s.len() == 0 {
        Seq::empty()
    } else if in_tag {
        visible_text(s.skip(1), s[0] != '>')
    } else if s[0] == '<' {
        visible_text(s.skip(1), true)
    } else if s.len() >= 5 && s.take(5) == "&amp;"@ {
        seq!['&'] + visible_text(s.skip(5), false)
    } else if s.len() >= 4 && s.take(4) == "&lt;"@ {
        seq!['<'] + visible_text(s.skip(4), false)
    } else if s.len() >= 4 && s.take(4) == "&gt;"@ {
        seq!['>'] + visible_text(s.skip(4), false)
    } else if s.len() >= 6 && s.take(6) == "&quot;"@ {
        seq!['"'] + visible_text(s.skip(6), false)
    } else if s.len() >= 5 && s.take(5) == "&#39;"@ {
        seq!['\''] + visible_text(s.skip(5), false)
    } else {
        seq![s[0]] + visible_text(s.skip(1), false)
    }
}

/// The code as a lumis block shows it: each `\r\n` as `\n`, and no line break at
/// the end (a final line break ends the last line).
pub open spec fn shown_code(code: Seq<char>) -> Seq<char> {
    let t = replace_all(code, "\r\n"@, "\n"@);
    if t.len() > 0 && t.last() == '\n' {
        t.drop_last()
    } else {
        t
    }
}

/// `html` is the highlighted block of `code` in the language: the frame of
/// `highlighted_block`, and the code as its visible text.
pub open spec fn code_highlight(html: Seq<char>, code: Seq<char>, lang: CodeLanguage) -> bool {
    &&& highlighted_block(html, lang)
    &&& visible_text(html, false) == shown_code(code)
}

/// `lumis::highlight` with a `lumis::HtmlLinkedBuilder` formatter for the language
/// and no `pre` class. The builder never fails: `HtmlLinked` is built with
/// `#[builder(default)]`, which fills every unset field from `HtmlLinked::default()`.
/// `HtmlLinked::write` writes the `pre` tag (`write_pre_tag`, marked by
/// `budget_attrs` when a limit was reached), the `code` tag of the language
/// (`write_code_tag`), the lines and `closing_tags`. Whether highlighted or, when
/// lumis's time limit runs out, left plain, the lines hold every character of the
/// code in order, escaped by `write_escaped`, between tags only: the highlighter's
/// source events cover the code, `split_source` cuts them at each `\n`,
/// `strip_line_ending` drops the `\n` and a `\r` before it, `write_html_lines`
/// puts `\n` between the lines and leaves out the empty line after a final line
/// break. Which spans the lines carry is not stated (it depends on the time
/// limit). lumis panics when highlighting fails for another reason.
#[verifier::external_body]
fn highlight_linked(code: &str, lang: CodeLanguage) -> (r: Result<String, lumis::formatter::html_linked::HtmlLinkedBuilderError>)
    ensures
        r is Ok,
        r matches Ok(html) ==> code_highlight(html@, code@, lang),
{
    #[allow(deprecated)]
    let formatter = lumis::HtmlLinkedBuilder::new()
        .lang(match lang {
            CodeLanguage::Rust => lumis::languages::Language::Rust,
            CodeLanguage::Python => lumis::languages::Language::Python,
            CodeLanguage::LaTeX => lumis::languages::Language::LaTeX,
            CodeLanguage::Html => lumis::languages::Language::HTML,
            CodeLanguage::PlainText => lumis::languages::Language::PlainText,
        })
        .pre_class(None)
        .build()?;
    Ok(lumis::highlight(code, formatter))
}

/// Highlights a code block as HTML with CSS classes, in the language its info
/// string names (plain text for any other).
pub fn highlight_code(code: &str, tag: &str) -> (r: Result<String, RenderError>)
    ensures
        r is Ok,
        r matches Ok(html) ==> code_highlight(html@, code@, language_of(tag@)),
{
    match highlight_linked(code, code_language(tag)) {
        Ok(html) => Ok(html),
        Err(e) => Err(RenderError::Highlight(e)),
    }
}

// Rendering iterator

/// The model of an optional event.
pub open spec fn opt_event<X>(e: Option<PageEvent<X>>) -> Option<EventModel<X>> {
    match e {
        Some(e) => Some(e@),
        None => None,
    }
}

/// An HTML event for rendered output, if there is any.
pub open spec fn html_of<X>(r: Option<Seq<char>>) -> Option<EventModel<X>> {
    match r {
        Some(s) => Some(EventModel::Html(s)),
        None => None,
    }
}

/// An inline HTML event for rendered output, if there is any.
pub open spec fn inline_html_of<X>(r: Option<Seq<char>>) -> Option<EventModel<X>> {
    match r {
        Some(s) => Some(EventModel::InlineHtml(s)),
        None => None,
    }
}

/// What `CustomIterator::next` does, from the events still to be read and the
/// language of the open fenced code block (if any) to the events left, the code
/// block state after it and the event it returns. `highlighted` is what the
/// highlighter returned, if it was called (`None` for an error).
pub open spec fn custom_next<X>(
    rest: Seq<EventModel<X>>,
    code: Option<Seq<char>>,
    highlighted: Option<Seq<char>>,
) -> (Seq<EventModel<X>>, Option<Seq<char>>, Option<EventModel<X>>)
    decreases rest.len(),
{
    if rest.len() == 0 {
        (rest, code, None)
    } else {
        let e = rest[0];
        let rest2 = rest.drop_first();
        match e {
            EventModel::Start(TagModel::CodeBlock(Some(lang))) => custom_next(rest2, Some(lang), highlighted),
            EventModel::Text(_) if code is Some => (rest2, code, html_of(highlighted)),
            EventModel::End(EndTag::CodeBlock) if code is Some => custom_next(rest2, None, highlighted),
            EventModel::DisplayMath(latex) => (rest2, code, html_of(mathml_output(latex, DisplayMode::Block))),
            EventModel::InlineMath(latex) => (rest2, code, inline_html_of(mathml_output(latex, DisplayMode::Inline))),
            _ => (rest2, code, Some(e)),
        }
    }
}

/// The code text and info string `CustomIterator::next` highlights on this step,
/// if it highlights one (reading past code block starts and ends as `custom_next` does).
pub open spec fn custom_code<X>(rest: Seq<EventModel<X>>, code: Option<Seq<char>>) -> Option<(Seq<char>, Seq<char>)>
    decreases rest.len(),
{
    if rest.len() == 0 {
        None
    } else {
        let rest2 = rest.drop_first();
        match rest[0] {
            EventModel::Start(TagModel::CodeBlock(Some(lang))) => custom_code(rest2, Some(lang)),
            EventModel::Text(t) if code is Some => Some((t, code->0)),
            EventModel::End(EndTag::CodeBlock) if code is Some => custom_code(rest2, None),
            _ => None,
        }
    }
}

/// What the highlighter returned fits the call it was made for: the highlighted
/// block of the code in the info string's language (and nothing is asked of it
/// when no call was made).
pub open spec fn highlight_fits(h: Option<Seq<char>>, call: Option<(Seq<char>, Seq<char>)>) -> bool {
    match call {
        Some((code, lang)) => h matches Some(s) && code_highlight(s, code, language_of(lang)),
        None => true,
    }
}

/// Renders the events of a page: fenced code blocks become highlighted HTML
/// (their start and end events are dropped), formulas become MathML; every other
/// event passes through. Reading stops early (`None`) when highlighting or a
/// formula fails.
pub struct CustomIterator<X> {
    inner: EventStream<X>,
    storage: pulldown_latex::Storage,
    code: Option<String>,
}

impl<X> CustomIterator<X> {
    /// The events still to be read.
    pub closed spec fn rest(&self) -> Seq<EventModel<X>> {
        self.inner.rest()
    }

    /// The info string of the open fenced code block, if any.
    pub closed spec fn code(&self) -> Option<Seq<char>> {
        crate::events::opt_view(self.code)
    }

    /// An iterator over the given events, outside any code block.
    pub fn new(inner: EventStream<X>) -> (r: Self)
        ensures
            r.rest() == inner.rest(),
            r.code() is None,
    {
        CustomIterator { inner, storage: new_storage(), code: None }
    }

    /// The next rendered event.
    pub fn next(&mut self) -> (r: Option<PageEvent<X>>)
        ensures
            exists|h: Option<Seq<char>>| #[trigger] custom_next(old(self).rest(), old(self).code(), h)
                == (final(self).rest(), final(self).code(), opt_event(r))
                && highlight_fits(h, custom_code(old(self).rest(), old(self).code())),
    {
        let ghost rest0 = self.rest();
        let ghost code0 = self.code();
        loop
            invariant
                rest0 == old(self).rest(),
                code0 == old(self).code(),
                forall|h: Option<Seq<char>>| #[trigger] custom_next(rest0, code0, h)
                    == custom_next(self.rest(), self.code(), h),
                custom_code(rest0, code0) == custom_code(self.rest(), self.code()),
            decreases self.rest().len(),
        {
            let ghost rest = self.rest();
            let e = match self.inner.next() {
                Some(e) => e,
                None => {
                    assert(custom_next(rest0, code0, None) == (self.rest(), self.code(), opt_event::<X>(None)));
                    return None;
                },
            };
            assert(e@ == rest[0]);
            match e {
                PageEvent::Start(StartTag::CodeBlock(CodeKind::Fenced(lang))) => {
                    self.code = Some(lang);
                },
                PageEvent::Text(code) if self.code.is_some() => {
                    let lang = self.code.as_ref().unwrap();
                    let r = match highlight_code(code.as_str(), lang.as_str()) {
                        Ok(html) => Some(PageEvent::Html(html)),
                        Err(_) => None,
                    };
                    let ghost h = match r {
                        Some(PageEvent::Html(ref s)) => Some(s@),
                        _ => None,
                    };
                    assert(custom_next(rest0, code0, h) == (self.rest(), self.code(), opt_event(r)));
                    return r;
                },
                PageEvent::End(EndTag::CodeBlock) if self.code.is_some() => {
                    self.code = None;
                },
                PageEvent::DisplayMath(latex) => {
                    let r = match latex_to_mathml(latex.as_str(), &mut self.storage, DisplayMode::Block) {
                        Ok(m) => Some(PageEvent::Html(m)),
                        Err(_) => None,
                    };
                    assert(custom_next(rest0, code0, None) == (self.rest(), self.code(), opt_event(r)));
                    return r;
                },
                PageEvent::InlineMath(latex) => {
                    let r = match latex_to_mathml(latex.as_str(), &mut self.storage, DisplayMode::Inline) {
                        Ok(m) => Some(PageEvent::InlineHtml(m)),
                        Err(_) => None,
                    };
                    assert(custom_next(rest0, code0, None) == (self.rest(), self.code(), opt_event(r)));
                    return r;
                },
                other => {
                    let r = Some(other);
                    assert(custom_next(rest0, code0, None) == (self.rest(), self.code(), opt_event(r)));
                    return r;
                },
            }
        }
    }
}

/// Closing a fenced code block leaves the renderer outside any code block: what
/// follows the end event is read exactly as it would be had no block been open,
/// and a text read outside a block comes out unchanged. So a fenced block
/// followed by a text gives the highlighted block, then the text itself.
pub proof fn law_code_block_closes<X>(
    lang: Seq<char>,
    code: Seq<char>,
    text: Seq<char>,
    rest: Seq<EventModel<X>>,
    open: Seq<char>,
    h: Option<Seq<char>>,
    h2: Option<Seq<char>>,
)
    ensures
        custom_next(seq![EventModel::End(EndTag::CodeBlock)] + rest, Some(open), h) == custom_next(rest, None, h),
        custom_next(seq![EventModel::Text(text)] + rest, None, h) == (rest, None::<Seq<char>>, Some(EventModel::<X>::Text(text))),
        ({
            let evs = seq![
                EventModel::Start(TagModel::CodeBlock(Some(lang))),
                EventModel::Text(code),
                EventModel::End(EndTag::CodeBlock),
                EventModel::Text(text),
            ] + rest;
            let (rest1, code1, e1) = custom_next(evs, None, h);
            &&& e1 == html_of::<X>(h)
            &&& custom_next(rest1, code1, h2) == (rest, None::<Seq<char>>, Some(EventModel::<X>::Text(text)))
        }),
{
    let ev = EventModel::<X>::End(EndTag::CodeBlock);
    let et = EventModel::<X>::Text(text);
    assert((seq![ev] + rest).drop_first() =~= rest);
    assert((seq![et] + rest).drop_first() =~= rest);
    let evs = seq![
        EventModel::Start(TagModel::CodeBlock(Some(lang))),
        EventModel::Text(code),
        ev,
        et,
    ] + rest;
    assert(evs.drop_first().drop_first() =~= seq![ev, et] + rest);
    assert(evs.drop_first()[0] == EventModel::<X>::Text(code));
    assert(evs.drop_first().drop_first() =~= seq![ev] + (seq![et] + rest));
    assert(custom_next(evs, None, h) == custom_next(evs.drop_first(), Some(lang), h));
    assert(custom_next(evs, None, h) == (seq![ev] + (seq![et] + rest), Some(lang), html_of::<X>(h)));
    assert((seq![ev] + (seq![et] + rest)).drop_first() =~= seq![et] + rest);
    assert((seq![ev] + (seq![et] + rest))[0] == ev);
    assert(custom_next(seq![ev] + (seq![et] + rest), Some(lang), h2) == custom_next(seq![et] + rest, None, h2));
}

/// Outside a fenced code block the renderer changes formulas only: a display
/// formula becomes a block of MathML, an inline one inline MathML, and any other
/// event (an unfenced code block's start among them) comes out as it went in.
pub proof fn law_renders_only_formulas<X>(e: EventModel<X>, rest: Seq<EventModel<X>>, h: Option<Seq<char>>)
    requires
        !(e matches EventModel::Start(TagModel::CodeBlock(Some(_)))),
    ensures
        custom_next(seq![e] + rest, None, h) == (rest, None::<Seq<char>>, match e {
            EventModel::DisplayMath(latex) => match mathml_output(latex, DisplayMode::Block) {
                Some(m) => Some(EventModel::Html(m)),
                None => None,
            },
            EventModel::InlineMath(latex) => match mathml_output(latex, DisplayMode::Inline) {
                Some(m) => Some(EventModel::InlineHtml(m)),
                None => None,
            },
            _ => Some(e),
        }),
{
    assert((seq![e] + rest).drop_first() =~= rest);
    assert((seq![e] + rest)[0] == e);
}

// Front matter

/// A YAML node, as `yaml_rust2::Yaml` holds it; a mapping keeps its entries in
/// document order.
#[derive(Debug)]
pub enum YamlValue {
    Real(String),
    Integer(i64),
    String(String),
    Boolean(bool),
    Array(Vec<YamlValue>),
    Hash(Vec<(YamlValue, YamlValue)>),
    Alias(usize),
    Null,
    BadValue,
}

/// The first document that `yaml_rust2::YamlLoader::load_from_str` loads from the
/// text (`None` when loading fails or there is no document).
pub uninterp spec fn yaml_first_document(source: Seq<char>) -> Option<YamlValue>;

#[verifier::external_type_specification]
#[verifier::external_body]
pub struct ExYaml(yaml_rust2::Yaml);

/// The library's copy of a `yaml_rust2::Yaml` node, variant for variant; mapping
/// entries in the map's order. Used by `load_first_document` alone.
#[verifier::external_body]
fn yaml_value(y: &yaml_rust2::Yaml) -> YamlValue {
    match y {
        yaml_rust2::Yaml::Real(s) => YamlValue::Real(s.clone()),
        yaml_rust2::Yaml::Integer(i) => YamlValue::Integer(*i),
        yaml_rust2::Yaml::String(s) => YamlValue::String(s.clone()),
        yaml_rust2::Yaml::Boolean(b) => YamlValue::Boolean(*b),
        yaml_rust2::Yaml::Array(a) => YamlValue::Array(a.iter().map(yaml_value).collect()),
        yaml_rust2::Yaml::Hash(h) => YamlValue::Hash(h.iter().map(|(k, v)| (yaml_value(k), yaml_value(v))).collect()),
        yaml_rust2::Yaml::Alias(n) => YamlValue::Alias(*n),
        yaml_rust2::Yaml::Null => YamlValue::Null,
        yaml_rust2::Yaml::BadValue => YamlValue::BadValue,
    }
}

/// `yaml_rust2::YamlLoader::load_from_str`, keeping the first document, as the
/// library's `YamlValue`; named by `yaml_first_document`.
#[verifier::external_body]
fn load_first_document(source: &str) -> (r: Option<YamlValue>)
    ensures
        r == yaml_first_document(source@),
{
    yaml_rust2::YamlLoader::load_from_str(source).ok()?.first().map(yaml_value)
}

/// The YAML text of a front matter block at the start of the events, if the
/// first three events are the block's start, its text and its end; and how many
/// events reading it takes (reading stops at the first event that does not fit).
pub open spec fn front_matter<X>(rest: Seq<EventModel<X>>) -> (nat, Option<Seq<char>>) {
    if rest.len() == 0 || rest[0] != EventModel::<X>::Start(TagModel::MetadataBlock(MetadataKind::YamlStyle)) {
        (if rest.len() == 0 { 0nat } else { 1nat }, None)
    } else if rest.len() == 1 || !(rest[1] is Text) {
        (if rest.len() == 1 { 1nat } else { 2nat }, None)
    } else if rest.len() == 2 || rest[2] != EventModel::<X>::End(EndTag::MetadataBlock(MetadataKind::YamlStyle)) {
        (if rest.len() == 2 { 2nat } else { 3nat }, None)
    } else {
        (3nat, Some(rest[1]->Text_0))
    }
}

/// Reads the YAML front matter block at the start of a page and loads its first
/// document.
pub fn process_metadata<X>(parser: &mut EventStream<X>) -> (r: Option<YamlValue>)
    ensures
        final(parser).rest() == old(parser).rest().skip(front_matter(old(parser).rest()).0 as int),
        r == match front_matter(old(parser).rest()).1 {
            Some(yaml) => yaml_first_document(yaml),
            None => None,
        },
{
    let ghost rest = parser.rest();
    if let Some(PageEvent::Start(StartTag::MetadataBlock(MetadataKind::YamlStyle))) = parser.next() {
        if let Some(PageEvent::Text(yaml)) = parser.next() {
            if let Some(PageEvent::End(EndTag::MetadataBlock(MetadataKind::YamlStyle))) = parser.next() {
                proof {
                    assert(parser.rest() =~= rest.skip(3));
                }
                return load_first_document(yaml.as_str());
            }
            proof {
                if rest.len() > 2 {
                    assert(parser.rest() =~= rest.skip(3));
                } else {
                    assert(parser.rest() =~= rest.skip(2));
                }
            }
            return None;
        }
        proof {
            if rest.len() > 1 {
                assert(parser.rest() =~= rest.skip(2));
            } else {
                assert(parser.rest() =~= rest.skip(1));
            }
        }
        return None;
    }
    proof {
        if rest.len() > 0 {
            assert(parser.rest() =~= rest.skip(1));
        } else {
            assert(parser.rest() =~= rest.skip(0));
        }
    }
    None
}

} // verus!
