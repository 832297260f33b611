use tuika::components::markdown::html::{classify, transliterate, unescape, Effect, Scope, Script};
use tuika::style::{Modifier, Role};

fn scope(raw: &str) -> Scope {
    match classify(raw) {
        Effect::Open(scope) => scope,
        _ => panic!("expected an opening scope for {raw:?}"),
    }
}

#[test]
fn aliases_share_one_closing_name() {
    assert_eq!(scope("<i>").name, "em");
    assert_eq!(scope("<em>").name, "em");
    assert!(matches!(classify("</i>"), Effect::Close("em")));
    assert!(matches!(classify("</em>"), Effect::Close("em")));
}

#[test]
fn tag_names_are_case_insensitive_and_tolerate_whitespace() {
    assert_eq!(scope("<STRONG>").name, "strong");
    assert!(matches!(classify("</ B >"), Effect::Close("strong")));
    assert!(matches!(classify("<br />"), Effect::Break));
}

#[test]
fn unknown_and_non_element_tags_are_inert() {
    for raw in ["<script>", "<div>", "<!-- note -->", "<!DOCTYPE html>"] {
        assert!(matches!(classify(raw), Effect::Inert), "{raw}");
    }
}

#[test]
fn anchor_reads_href_with_entities_decoded() {
    let scope = scope("<a class='x' href=\"/q?a=1&amp;b=2\">");
    assert_eq!(scope.href.as_deref(), Some("/q?a=1&b=2"));
    assert_eq!(scope.role, Some(Role::Link));
}

#[test]
fn anchor_without_href_still_opens_a_scope() {
    assert_eq!(scope("<a name=top>").href, None);
}

#[test]
fn image_reads_src_and_alt() {
    match classify("<img src=pic.png alt='a cat' width=10>") {
        Effect::Image { src, alt } => {
            assert_eq!(src, "pic.png");
            assert_eq!(alt, "a cat");
        }
        _ => panic!("expected an image"),
    }
}

#[test]
fn attribute_lookup_does_not_match_a_suffix() {
    match classify("<img data-src=no srcset=also-no src=yes>") {
        Effect::Image { src, .. } => assert_eq!(src, "yes"),
        _ => panic!("expected an image"),
    }
}

#[test]
fn transliteration_is_all_or_nothing() {
    assert_eq!(transliterate("2", Script::Sub).as_deref(), Some("₂"));
    assert_eq!(transliterate("-9", Script::Sup).as_deref(), Some("⁻⁹"));
    assert_eq!(transliterate("th", Script::Sup), None);
    assert_eq!(transliterate("", Script::Sub), None);
}

#[test]
fn unescape_leaves_lone_ampersands_alone() {
    assert_eq!(unescape("a & b"), "a & b");
    assert_eq!(unescape("&#x41;&#66;&nope;"), "AB&nope;");
}

#[test]
fn unescape_decodes_named_and_numeric_references() {
    assert_eq!(unescape("&lt;b&gt; &quot;x&quot; &apos;&#39;"), "<b> \"x\" ''");
    assert_eq!(unescape("&nbsp;"), "\u{a0}");
    // A surrogate code and an overlong reference stay literal.
    assert_eq!(unescape("&#xD800;"), "&#xD800;");
    assert_eq!(unescape("&#0000000065;"), "&#0000000065;");
    assert_eq!(unescape("&#+65;"), "A");
}

#[test]
fn presentational_tags_carry_roles_modifiers_and_scripts() {
    assert_eq!(scope("<kbd>").role, Some(Role::InlineCode));
    assert_eq!(scope("<del>").role, Some(Role::Strikethrough));
    assert_eq!(scope("<ins>").modifier, Modifier::underlined());
    assert_eq!(scope("<mark>").modifier, Modifier::reversed());
    assert_eq!(scope("<sup>").script, Some(Script::Sup));
    assert!(matches!(classify("</tt>"), Effect::Close("code")));
    assert!(matches!(classify("</span>"), Effect::Inert));
    assert!(matches!(classify("<span>"), Effect::Inert));
}
