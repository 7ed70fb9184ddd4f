use vstd::prelude::*;
use crate::types::Timestamp;
use crate::chars::{pop_char, is_alphanumeric, is_whitespace, push_char, to_ascii_lowercase, lower_ascii, alphanumeric, whitespace};

verus! {

/// The HTML escape of one character.
pub open spec fn escape_char(c: char) -> Seq<char> {
    if c == '&' {
        seq!['&', 'a', 'm', 'p', ';']
    } else if c == '<' {
        seq!['&', 'l', 't', ';']
    } else if c == '>' {
        seq!['&', 'g', 't', ';']
    } else if c == '"' {
        seq!['&', 'q', 'u', 'o', 't', ';']
    } else {
        seq![c]
    }
}

/// The HTML escape of a text: each character replaced by its escape.
pub open spec fn escape_text(s: Seq<char>) -> Seq<char>
    decreases s.len(),
{
    if s.len() == 0 {
        Seq::empty()
    } else {
        escape_text(s.drop_last()) + escape_char(s.last())
    }
}

/// Escapes `&`, `<`, `>` and `"` for use in HTML text and attribute values.
pub fn html_escape(text: &str) -> (r: String)
    ensures
        r@ == escape_text(text@),
{
    let mut result = String::new();
    for c in it: text.chars()
        invariant
            it.seq() == text@,
            result@ == escape_text(text@.take(it.index())),
    {
        proof {
            reveal_strlit("&amp;");
            reveal_strlit("&lt;");
            reveal_strlit("&gt;");
            reveal_strlit("&quot;");
            assert(text@.take(it.index() + 1).drop_last() == text@.take(it.index()));
            assert(text@.take(it.index() + 1).last() == c);
        }
        if c == '&' {
            result.append("&amp;");
        } else if c == '<' {
            result.append("&lt;");
        } else if c == '>' {
            result.append("&gt;");
        } else if c == '"' {
            result.append("&quot;");
        } else {
            push_char(&mut result, c);
        }
    }
    proof {
        assert(text@.take(text@.len() as int) == text@);
    }
    result
}


/// Escaping leaves no `<`, `>` or `"` in a text, so that what `html_escape`
/// returns can stand in HTML text and in a double-quoted attribute value.
pub proof fn law_escaped_text_has_no_markup(s: Seq<char>)
    ensures
        forall|i: int| 0 <= i < escape_text(s).len() ==> {
            let c = #[trigger] escape_text(s)[i];
            c != '<' && c != '>' && c != '"'
        },
    decreases s.len(),
{
    if s.len() > 0 {
        law_escaped_text_has_no_markup(s.drop_last());
        let a = escape_text(s.drop_last());
        let b = escape_char(s.last());
        assert forall|i: int| 0 <= i < escape_text(s).len() implies {
            let c = #[trigger] escape_text(s)[i];
            c != '<' && c != '>' && c != '"'
        } by {
            if i < a.len() {
                assert(escape_text(s)[i] == a[i]);
            } else {
                assert(escape_text(s)[i] == b[i - a.len()]);
            }
        }
    }
}

/// Which characters, besides alphanumeric ones, a slugger turns into a dash.
#[derive(Clone, Copy, PartialEq, Eq, Debug)]
pub enum Separators {
    /// Every character that is not alphanumeric.
    NonAlphanumeric,
    /// Whitespace only; other characters are dropped.
    Whitespace,
    /// Whitespace and `-`; other characters are dropped.
    WhitespaceOrHyphen,
}

/// Whether a non-alphanumeric character separates words under `sep`.
pub open spec fn separates(sep: Separators, c: char) -> bool {
    match sep {
        Separators::NonAlphanumeric => true,
        Separators::Whitespace => whitespace(c),
        Separators::WhitespaceOrHyphen => whitespace(c) || c == '-',
    }
}

/// One character of the slug scan: an alphanumeric character is kept, lowercased;
/// a separator becomes one dash unless the previous output was a dash (or nothing
/// was output yet); everything else is dropped. The boolean is "the last output
/// was a dash, or there is no output yet".
pub open spec fn slug_scan_step(sep: Separators, acc: (Seq<char>, bool), c: char) -> (Seq<char>, bool) {
    if alphanumeric(c) {
        (acc.0.push(lower_ascii(c)), false)
    } else if separates(sep, c) && !acc.1 {
        (acc.0.push('-'), true)
    } else {
        acc
    }
}

/// The slug scan of a whole text, starting with no output.
pub open spec fn slug_scan(sep: Separators, s: Seq<char>) -> (Seq<char>, bool)
    decreases s.len(),
{
    if s.len() == 0 {
        (Seq::empty(), true)
    } else {
        slug_scan_step(sep, slug_scan(sep, s.drop_last()), s.last())
    }
}

/// The slug scan continued from a given state over more text.
pub open spec fn slug_scan_from(sep: Separators, acc: (Seq<char>, bool), s: Seq<char>) -> (Seq<char>, bool)
    decreases s.len(),
{
    if s.len() == 0 {
        acc
    } else {
        slug_scan_step(sep, slug_scan_from(sep, acc, s.drop_last()), s.last())
    }
}

/// Continuing the scan over `s` from the scan of `t` is the scan of `t + s`.
pub proof fn lemma_slug_scan_from(sep: Separators, t: Seq<char>, s: Seq<char>)
    ensures
        slug_scan_from(sep, slug_scan(sep, t), s) == slug_scan(sep, t + s),
    decreases s.len(),
{
    if s.len() == 0 {
        assert(t + s == t);
    } else {
        lemma_slug_scan_from(sep, t, s.drop_last());
        assert((t + s).drop_last() == t + s.drop_last());
    }
}

/// Feeds one character to a slug under construction.
pub fn slug_push(sep: Separators, out: &mut String, last_dash: &mut bool, c: char)
    ensures
        (final(out)@, *final(last_dash)) == slug_scan_step(sep, (old(out)@, *old(last_dash)), c),
{
    if is_alphanumeric(c) {
        *last_dash = false;
        push_char(out, to_ascii_lowercase(c));
    } else {
        let is_sep = match sep {
            Separators::NonAlphanumeric => true,
            Separators::Whitespace => is_whitespace(c),
            Separators::WhitespaceOrHyphen => is_whitespace(c) || c == '-',
        };
        if is_sep && !*last_dash {
            *last_dash = true;
            push_char(out, '-');
        }
    }
}

/// Feeds every character of `text` to a slug under construction.
pub fn slug_push_str(sep: Separators, out: &mut String, last_dash: &mut bool, text: &str)
    ensures
        (final(out)@, *final(last_dash)) == slug_scan_from(sep, (old(out)@, *old(last_dash)), text@),
{
    let ghost start = (out@, *last_dash);
    for c in it: text.chars()
        invariant
            it.seq() == text@,
            (out@, *last_dash) == slug_scan_from(sep, start, text@.take(it.index())),
    {
        proof {
            assert(text@.take(it.index() + 1).drop_last() == text@.take(it.index()));
            assert(text@.take(it.index() + 1).last() == c);
        }
        slug_push(sep, out, last_dash, c);
    }
    proof {
        assert(text@.take(text@.len() as int) == text@);
    }
}

/// The slug of a text as `slugify` builds it: the scan over every non-alphanumeric
/// separator, with one trailing dash removed.
pub open spec fn slug_of(s: Seq<char>) -> Seq<char> {
    let r = slug_scan(Separators::NonAlphanumeric, s).0;
    if r.len() > 0 && r.last() == '-' {
        r.drop_last()
    } else {
        r
    }
}

/// Turns a text into a URL slug: alphanumeric characters are kept (ASCII letters
/// lowercased), each run of other characters between them becomes one `-`, and
/// nothing is kept of the runs at either end.
pub fn slugify(text: &str) -> (r: String)
    ensures
        r@ == slug_of(text@),
{
    let mut result = String::new();
    let mut last_dash = true;
    proof {
        assert(Seq::<char>::empty() + text@ == text@);
        lemma_slug_scan_from(Separators::NonAlphanumeric, Seq::empty(), text@);
    }
    slug_push_str(Separators::NonAlphanumeric, &mut result, &mut last_dash, text);
    let ghost scanned = result@;
    let n = result.as_str().unicode_len();
    if n > 0 && result.as_str().get_char(n - 1) == '-' {
        let _ = pop_char(&mut result);
    }
    result
}

/// What a slug scan has built: no dash first, never two dashes in a row, only
/// dashes and alphanumeric characters that are not ASCII capitals; and its flag
/// says whether the output is empty or ends with a dash.
pub open spec fn slug_scan_shaped(r: (Seq<char>, bool)) -> bool {
    &&& r.1 <==> (r.0.len() == 0 || r.0.last() == '-')
    &&& r.0.len() > 0 ==> r.0[0] != '-'
    &&& forall|i: int| 0 <= i < r.0.len() - 1 ==> !(#[trigger] r.0[i] == '-' && r.0[i + 1] == '-')
    &&& forall|i: int| 0 <= i < r.0.len() ==> slug_char(#[trigger] r.0[i])
}

/// A character a slug may hold: a dash, or an alphanumeric character that is not
/// an ASCII capital.
pub open spec fn slug_char(c: char) -> bool {
    c == '-' || (alphanumeric(c) && !('A' <= c && c <= 'Z'))
}

proof fn lemma_lower_ascii_alphanumeric(c: char)
    requires
        alphanumeric(c),
    ensures
        slug_char(lower_ascii(c)),
        lower_ascii(c) != '-',
{
    if 'A' <= c && c <= 'Z' {
        let d = lower_ascii(c);
        assert(d as u32 == c as u32 + 32);
        assert('a' <= d && d <= 'z');
    }
}

pub proof fn lemma_slug_scan_shaped(sep: Separators, s: Seq<char>)
    ensures
        slug_scan_shaped(slug_scan(sep, s)),
    decreases s.len(),
{
    if s.len() > 0 {
        lemma_slug_scan_shaped(sep, s.drop_last());
        let c = s.last();
        let p = slug_scan(sep, s.drop_last());
        if alphanumeric(c) {
            lemma_lower_ascii_alphanumeric(c);
            let q = p.0.push(lower_ascii(c));
            assert forall|i: int| 0 <= i < q.len() implies slug_char(#[trigger] q[i]) by {
                if i < p.0.len() {
                    assert(q[i] == p.0[i]);
                }
            }
            assert forall|i: int| 0 <= i < q.len() - 1 implies !(#[trigger] q[i] == '-' && q[i + 1] == '-') by {
                if i < p.0.len() - 1 {
                    assert(q[i] == p.0[i] && q[i + 1] == p.0[i + 1]);
                }
            }
        } else if separates(sep, c) && !p.1 {
            let q = p.0.push('-');
            assert forall|i: int| 0 <= i < q.len() implies slug_char(#[trigger] q[i]) by {
                if i < p.0.len() {
                    assert(q[i] == p.0[i]);
                }
            }
            assert forall|i: int| 0 <= i < q.len() - 1 implies !(#[trigger] q[i] == '-' && q[i + 1] == '-') by {
                if i < p.0.len() - 1 {
                    assert(q[i] == p.0[i] && q[i + 1] == p.0[i + 1]);
                } else {
                    assert(q[i] == p.0.last());
                }
            }
        }
    }
}

/// A slug is empty or starts and ends with an alphanumeric character; it never
/// holds two dashes in a row; and it holds only dashes and alphanumeric
/// characters, no ASCII capital among them.
pub proof fn law_slug_shape(s: Seq<char>)
    ensures
        slug_of(s).len() > 0 ==> slug_of(s)[0] != '-' && slug_of(s).last() != '-',
        forall|i: int| 0 <= i < slug_of(s).len() - 1 ==> !(#[trigger] slug_of(s)[i] == '-' && slug_of(s)[i + 1] == '-'),
        forall|i: int| 0 <= i < slug_of(s).len() ==> slug_char(#[trigger] slug_of(s)[i]),
{
    lemma_slug_scan_shaped(Separators::NonAlphanumeric, s);
    let r = slug_scan(Separators::NonAlphanumeric, s).0;
    let t = slug_of(s);
    if r.len() > 0 && r.last() == '-' {
        assert(t == r.drop_last());
        assert forall|i: int| 0 <= i < t.len() implies slug_char(#[trigger] t[i]) by {
            assert(t[i] == r[i]);
        }
        assert forall|i: int| 0 <= i < t.len() - 1 implies !(#[trigger] t[i] == '-' && t[i + 1] == '-') by {
            assert(t[i] == r[i] && t[i + 1] == r[i + 1]);
        }
        if t.len() > 0 {
            assert(t[0] == r[0]);
            assert(t.last() == r[r.len() - 2]);
        }
    }
}

/// Whether a static file is to be copied over its target: the target does not
/// exist, or the source was modified after it.
pub open spec fn copy_needed(target_modified: Option<Timestamp>, source_modified: Timestamp) -> bool {
    match target_modified {
        Some(t) => t.before(source_modified),
        None => true,
    }
}

/// Whether a static file is to be copied over its target (given the target's
/// modification time, `None` when it does not exist).
pub fn needs_copy(target_modified: Option<Timestamp>, source_modified: Timestamp) -> (r: bool)
    ensures
        r == copy_needed(target_modified, source_modified),
{
    match target_modified {
        Some(t) => t.is_before(&source_modified),
        None => true,
    }
}

} // verus!
