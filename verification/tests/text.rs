use ssgen::strings::{replace, text_is_less};
use ssgen::types::Timestamp;
use ssgen::utils::{html_escape, needs_copy, slugify};

fn shaped_like_a_slug(s: &str) -> bool {
    !s.starts_with('-') && !s.ends_with('-') && !s.contains("--") && !s.chars().any(|c| c.is_ascii_uppercase())
}

#[test]
fn html_escape_replaces_markup_characters() {
    assert_eq!(html_escape("a<b>&\"c\"'"), "a&lt;b&gt;&amp;&quot;c&quot;'");
}

#[test]
fn html_escape_keeps_plain_text() {
    assert_eq!(html_escape("Hello, world"), "Hello, world");
    assert_eq!(html_escape(""), "");
    assert_eq!(html_escape("Café ↩"), "Café ↩");
}

#[test]
fn html_escape_escapes_an_existing_entity_again() {
    assert_eq!(html_escape("&amp;"), "&amp;amp;");
}

#[test]
fn escaped_text_has_no_markup() {
    for s in ["<script>alert(\"x\")</script>", "a > b", "\"quoted\"", "plain"] {
        let e = html_escape(s);
        assert!(!e.contains('<') && !e.contains('>') && !e.contains('"'), "{e}");
    }
}

#[test]
fn slugify_joins_words_with_single_dashes() {
    assert_eq!(slugify("Hello, World!"), "hello-world");
    assert_eq!(slugify("Linear   and   Affine"), "linear-and-affine");
}

#[test]
fn slugify_drops_separators_at_both_ends() {
    assert_eq!(slugify("  --Rust 2024--  "), "rust-2024");
    assert_eq!(slugify("!!!"), "");
    assert_eq!(slugify(""), "");
}

#[test]
fn slugify_lowercases_ascii_letters_only() {
    assert_eq!(slugify("Über Café"), "Über-café");
    assert_eq!(slugify("C++ Tips"), "c-tips");
}

#[test]
fn slugs_have_the_stated_shape() {
    for s in ["  a  b  ", "--x--", "NVFP4 GEMV: part 2", "a-b", "Σ sums", "...", "x"] {
        let slug = slugify(s);
        assert!(shaped_like_a_slug(&slug), "{s:?} -> {slug:?}");
    }
}

#[test]
fn replace_replaces_every_occurrence() {
    assert_eq!(replace("a{{X}}b{{X}}c", "{{X}}", "yz"), "ayzbyzc");
    assert_eq!(replace("no placeholder", "{{X}}", "yz"), "no placeholder");
    assert_eq!(replace("aaa", "aa", "b"), "ba");
}

#[test]
fn text_order_is_lexicographic() {
    assert!(text_is_less("apple", "banana"));
    assert!(!text_is_less("banana", "apple"));
    assert!(text_is_less("ab", "abc"));
    assert!(!text_is_less("abc", "abc"));
    assert!(text_is_less("Zebra", "apple"));
}

#[test]
fn timestamps_in_chrono_range_are_accepted() {
    let t = Timestamp::new(1709596800, 0).unwrap();
    assert_eq!(t.secs, 1709596800);
    assert_eq!(t.nanos, 0);
    assert!(Timestamp::new(i64::MAX, 0).is_none());
}

#[test]
fn timestamps_are_ordered_by_seconds_then_nanoseconds() {
    let a = Timestamp::new(10, 5).unwrap();
    let b = Timestamp::new(10, 6).unwrap();
    let c = Timestamp::new(11, 0).unwrap();
    assert!(a.is_before(&b));
    assert!(b.is_before(&c));
    assert!(!b.is_before(&a));
    assert!(!a.is_before(&a));
}

#[test]
fn static_files_are_copied_when_missing_or_older() {
    let old = Timestamp::new(100, 0).unwrap();
    let new = Timestamp::new(200, 0).unwrap();
    assert!(needs_copy(None, old));
    assert!(needs_copy(Some(old), new));
    assert!(!needs_copy(Some(new), old));
    assert!(!needs_copy(Some(old), old));
}
