//! Scenario tests for the markup tree: round trips, closing-tag resolution,
//! comments, self-closing tags, and the shape of sibling runs.

use html_tree::html::Html;
use html_tree::tag::{Attribute, Tag, TagClosingStatus, TagType};

fn simple_tag(name: &str) -> Tag {
    Tag { name: name.to_string(), attributes: Vec::new() }
}

fn feed_text(tree: &mut Html, text: &str) {
    for ch in text.chars() {
        tree.push_char(ch);
    }
}

/// Checks that no run of siblings has fewer than two elements and that no
/// run is nested directly inside another run.
fn sequences_are_sound(tree: &Html) -> bool {
    match tree {
        Html::Sequence(items) => {
            items.len() >= 2
                && items.iter().all(|item| !matches!(item, Html::Sequence(_)))
                && items.iter().all(sequences_are_sound)
        }
        Html::Tag { child, .. } => sequences_are_sound(child),
        _ => true,
    }
}

#[test]
fn plain_text_round_trips() {
    let mut tree = Html::default();
    feed_text(&mut tree, "hello, world & <momentarily> plain");
    assert_eq!(tree.render(), "hello, world & <momentarily> plain");
}

#[test]
fn empty_tree_renders_empty() {
    let tree = Html::default();
    assert!(tree.is_empty());
    assert_eq!(tree.render(), "");
}

#[test]
fn well_formed_markup_round_trips() {
    let mut tree = Html::default();
    tree.push_node(Html::Document {
        name: "doctype".to_string(),
        attr: Some("html".to_string()),
    });
    tree.push_tag(
        Tag {
            name: "div".to_string(),
            attributes: vec![Attribute { name: "id".to_string(), value: Some("blob".to_string()) }],
        },
        false,
    );
    feed_text(&mut tree, "text");
    tree.push_tag(simple_tag("br"), true);
    feed_text(&mut tree, "more");
    assert!(tree.close_tag("div").is_ok());
    tree.push_comment();
    feed_text(&mut tree, "note");
    assert!(tree.close_comment());
    assert_eq!(
        tree.render(),
        "<!doctype html><div id=\"blob\">text<br />more</div><!--note-->",
    );
}

#[test]
fn closing_with_nothing_open_reports_no_open_tag() {
    let mut tree = Html::default();
    assert_eq!(tree.close_tag_aux("div"), TagClosingStatus::NoOpenTag);
    let err = tree.close_tag("div").unwrap_err();
    assert_eq!(
        err,
        "Invalid closing tag: Found closing tag for 'div' but all tags are already closed.",
    );
    assert!(tree.is_empty());
}

#[test]
fn closing_outer_before_inner_reports_wrong_name() {
    let mut tree = Html::default();
    tree.push_tag(simple_tag("a"), false);
    tree.push_tag(simple_tag("b"), false);
    assert_eq!(
        tree.close_tag_aux("a"),
        TagClosingStatus::WrongName("b".to_string()),
    );
    // The mismatch must not alter the tree: `b` is still open and can be
    // closed, then `a`.
    assert_eq!(tree.render(), "<a><b>");
    let err = tree.close_tag("a").unwrap_err();
    assert_eq!(
        err,
        "Invalid closing tag: Found closing tag for 'a' but 'b' is still open.",
    );
    assert_eq!(tree.close_tag_aux("b"), TagClosingStatus::Success);
    assert_eq!(tree.close_tag_aux("a"), TagClosingStatus::Success);
    assert_eq!(tree.render(), "<a><b></b></a>");
}

#[test]
fn closing_in_nesting_order_succeeds() {
    let mut tree = Html::default();
    tree.push_tag(simple_tag("div"), false);
    tree.push_tag(simple_tag("span"), false);
    assert!(tree.close_tag("span").is_ok());
    assert!(tree.close_tag("div").is_ok());
    assert_eq!(tree.render(), "<div><span></span></div>");
}

#[test]
fn comment_closes_once() {
    let mut tree = Html::default();
    tree.push_comment();
    feed_text(&mut tree, "hello");
    assert!(tree.close_comment());
    assert_eq!(tree.render(), "<!--hello-->");
    // A second close finds no open comment and must not alter the render.
    assert!(!tree.close_comment());
    assert_eq!(tree.render(), "<!--hello-->");
}

#[test]
fn unclosed_comment_renders_without_terminator() {
    let mut tree = Html::default();
    tree.push_tag(simple_tag("div"), false);
    tree.push_comment();
    feed_text(&mut tree, "pending");
    assert!(tree.is_comment());
    assert_eq!(tree.render(), "<div><!--pending");
}

#[test]
fn character_after_self_closing_tag_starts_a_sibling() {
    let mut tree = Html::default();
    tree.push_tag(simple_tag("br"), true);
    tree.push_char('x');
    assert_eq!(tree.render(), "<br />x");
    // The self-closing tag's child stayed empty: the character became a new
    // sibling beside it.
    match &tree {
        Html::Sequence(items) => {
            assert_eq!(items.len(), 2);
            match &items[0] {
                Html::Tag { full, child, .. } => {
                    assert_eq!(*full, TagType::SelfClosing);
                    assert!(matches!(**child, Html::Empty));
                }
                other => panic!("expected a tag, got {other:?}"),
            }
            assert!(matches!(&items[1], Html::Text(text) if text == "x"));
        }
        other => panic!("expected a sibling run, got {other:?}"),
    }
}

#[test]
fn interleaved_text_and_tags_keep_sequences_sound() {
    let mut tree = Html::default();
    feed_text(&mut tree, "alpha");
    tree.push_tag(simple_tag("br"), true);
    feed_text(&mut tree, "beta");
    tree.push_tag(simple_tag("hr"), true);
    feed_text(&mut tree, "gamma");
    assert!(sequences_are_sound(&tree));
    assert_eq!(tree.render(), "alpha<br />beta<hr />gamma");
}

#[test]
fn nested_content_keeps_sequences_sound() {
    let mut tree = Html::default();
    tree.push_tag(simple_tag("div"), false);
    feed_text(&mut tree, "one");
    tree.push_tag(simple_tag("em"), false);
    feed_text(&mut tree, "two");
    assert!(tree.close_tag("em").is_ok());
    feed_text(&mut tree, "three");
    assert!(tree.close_tag("div").is_ok());
    feed_text(&mut tree, "tail");
    assert!(sequences_are_sound(&tree));
    assert_eq!(tree.render(), "<div>one<em>two</em>three</div>tail");
}

#[test]
fn document_declaration_renders_by_shape() {
    let empty = Html::Document { name: String::new(), attr: None };
    assert_eq!(empty.render(), "<!>");
    let bare = Html::Document { name: "doctype".to_string(), attr: None };
    assert_eq!(bare.render(), "<!doctype >");
    let attributed = Html::Document { name: String::new(), attr: Some("x".to_string()) };
    assert_eq!(attributed.render(), "<! x>");
}

#[test]
fn tag_renders_name_and_attributes() {
    let tag = Tag {
        name: "input".to_string(),
        attributes: vec![
            Attribute { name: "type".to_string(), value: Some("text".to_string()) },
            Attribute { name: "disabled".to_string(), value: None },
        ],
    };
    assert_eq!(tag.render(), "input type=\"text\" disabled");
    let mut tree = Html::default();
    tree.push_tag(tag, true);
    assert_eq!(tree.render(), "<input type=\"text\" disabled />");
}

#[test]
fn from_char_builds_one_character_of_text() {
    let tree = Html::from_char('q');
    assert_eq!(tree.render(), "q");
    assert!(!tree.is_empty());
}

#[test]
fn empty_box_holds_an_empty_tree() {
    let boxed = Html::empty_box();
    assert!(boxed.is_empty());
}

#[test]
fn pushability_depends_on_shape_and_input() {
    assert!(Html::Empty.is_pushable(true));
    assert!(Html::Empty.is_pushable(false));
    let text = Html::from_char('a');
    assert!(text.is_pushable(true));
    assert!(!text.is_pushable(false));
    let doc = Html::Document { name: "doctype".to_string(), attr: None };
    assert!(!doc.is_pushable(true));
    let open_comment = Html::Comment { content: String::new(), full: false };
    assert!(open_comment.is_pushable(true));
    let done_comment = Html::Comment { content: String::new(), full: true };
    assert!(!done_comment.is_pushable(true));
}

#[test]
fn is_comment_sees_through_open_tags() {
    let mut tree = Html::default();
    tree.push_tag(simple_tag("div"), false);
    assert!(!tree.is_comment());
    tree.push_comment();
    assert!(tree.is_comment());
    assert!(tree.close_comment());
    assert!(!tree.is_comment());
}

#[test]
fn comment_then_character_starts_a_sibling() {
    let mut tree = Html::default();
    tree.push_comment();
    feed_text(&mut tree, "c");
    assert!(tree.close_comment());
    tree.push_char('x');
    assert_eq!(tree.render(), "<!--c-->x");
    assert!(sequences_are_sound(&tree));
}

#[test]
fn tag_type_reports_openness() {
    assert!(TagType::Opened.is_open());
    assert!(!TagType::Closed.is_open());
    assert!(!TagType::SelfClosing.is_open());
}

#[test]
fn wrong_name_is_reported_from_the_innermost_tag() {
    let mut tree = Html::default();
    tree.push_tag(simple_tag("ul"), false);
    tree.push_tag(simple_tag("li"), false);
    assert!(tree.close_tag("li").is_ok());
    // `li` is closed, so `ul` is the innermost open tag again.
    assert_eq!(
        tree.close_tag_aux("li"),
        TagClosingStatus::WrongName("ul".to_string()),
    );
    assert!(tree.close_tag("ul").is_ok());
    assert_eq!(tree.render(), "<ul><li></li></ul>");
}
