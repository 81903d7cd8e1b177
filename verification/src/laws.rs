//! Laws of the tree: how every operation extends the rendered text, and the
//! round-trip guarantee for event streams fed in one at a time.

use vstd::prelude::*;

use crate::model::{render_seq, HtmlView};
use crate::tag::{ClosingStatusView, TagType, TagView};

verus! {

/// A two-element run of siblings renders to the two renderings in order.
pub proof fn lemma_render_seq_two(a: HtmlView, b: HtmlView)
    ensures
        render_seq(seq![a, b]) == a.render() + b.render(),
{
    reveal_with_fuel(render_seq, 3);
    assert(seq![a, b].drop_last() =~= seq![a]);
    assert(seq![a].drop_last() =~= Seq::<HtmlView>::empty());
    assert(seq![a].last() == a);
    assert(seq![a, b].last() == b);
    assert(render_seq(seq![a, b]) =~= a.render() + b.render());
}

/// Replacing the last node of a run of siblings replaces the tail of its
/// rendering by the new node's rendering.
pub proof fn lemma_render_seq_update_last(items: Seq<HtmlView>, x: HtmlView)
    requires
        items.len() > 0,
    ensures
        render_seq(items.update(items.len() - 1, x)) == render_seq(items.drop_last())
            + x.render(),
{
    let updated = items.update(items.len() - 1, x);
    assert(updated.drop_last() =~= items.drop_last());
    assert(updated.last() == x);
    assert(render_seq(updated) == render_seq(updated.drop_last()) + updated.last().render());
}

/// Appending a node to a run of siblings appends its rendering.
pub proof fn lemma_render_seq_push(items: Seq<HtmlView>, x: HtmlView)
    ensures
        render_seq(items.push(x)) == render_seq(items) + x.render(),
{
    let pushed = items.push(x);
    assert(pushed.drop_last() =~= items);
    assert(pushed.last() == x);
    assert(render_seq(pushed) == render_seq(pushed.drop_last()) + pushed.last().render());
}

/// Appending one character appends exactly that character to the rendering,
/// whatever the tree looks like.
pub proof fn lemma_push_char_render(v: HtmlView, ch: char)
    ensures
        v.push_char(ch).render() == v.render().push(ch),
    decreases v,
{
    match v {
        HtmlView::Empty => {
            assert(seq![ch] =~= Seq::<char>::empty().push(ch));
        },
        HtmlView::Text(_) => {
        },
        HtmlView::Comment { content, full } => {
            if full {
                lemma_render_seq_two(v, HtmlView::Text(seq![ch]));
                assert(v.render() + seq![ch] =~= v.render().push(ch));
            } else {
                assert(("<!--"@ + content.push(ch)) + Seq::<char>::empty()
                    =~= (("<!--"@ + content) + Seq::<char>::empty()).push(ch));
            }
        },
        HtmlView::Document { .. } => {
            lemma_render_seq_two(v, HtmlView::Text(seq![ch]));
            assert(v.render() + seq![ch] =~= v.render().push(ch));
        },
        HtmlView::Tag { tag, full, child } => {
            if full is Opened {
                lemma_push_char_render(*child, ch);
                assert(("<"@ + tag.text() + ">"@) + child.render().push(ch)
                    =~= (("<"@ + tag.text() + ">"@) + child.render()).push(ch));
            } else {
                lemma_render_seq_two(v, HtmlView::Text(seq![ch]));
                assert(v.render() + seq![ch] =~= v.render().push(ch));
            }
        },
        HtmlView::Sequence(items) => {
            if items.len() > 0 && items.last().is_pushable(true) {
                lemma_push_char_render(items.last(), ch);
                let updated = items.update(items.len() - 1, items.last().push_char(ch));
                assert(updated.drop_last() =~= items.drop_last());
                assert(updated.last() == items.last().push_char(ch));
                assert(render_seq(items.drop_last()) + items.last().render().push(ch)
                    =~= (render_seq(items.drop_last()) + items.last().render()).push(ch));
                assert(v.push_char(ch).render() == render_seq(updated));
                assert(render_seq(updated) == render_seq(updated.drop_last())
                    + updated.last().render());
                assert(v.render() == render_seq(items));
                assert(render_seq(items) == render_seq(items.drop_last())
                    + items.last().render());
            } else {
                let pushed = items.push(HtmlView::Text(seq![ch]));
                assert(pushed.drop_last() =~= items);
                assert(pushed.last() == HtmlView::Text(seq![ch]));
                assert(render_seq(items) + seq![ch] =~= render_seq(items).push(ch));
                assert(v.push_char(ch).render() == render_seq(pushed));
                assert(HtmlView::Text(seq![ch]).render() == seq![ch]);
                assert(render_seq(pushed) == render_seq(items) + seq![ch]);
                assert(v.render() == render_seq(items));
            }
        },
    }
}

/// The tree a sequence of characters builds from a starting tree, fed in one
/// at a time.
pub open spec fn append_chars(v: HtmlView, s: Seq<char>) -> HtmlView
    decreases s.len(),
{
    if s.len() == 0 {
        v
    } else {
        append_chars(v.push_char(s.first()), s.drop_first())
    }
}

/// Feeding characters one at a time appends them, in order, to the
/// rendering of whatever tree they are fed into.
pub proof fn lemma_append_chars_render(v: HtmlView, s: Seq<char>)
    ensures
        append_chars(v, s).render() == v.render() + s,
    decreases s.len(),
{
    if s.len() == 0 {
        assert(v.render() + s =~= v.render());
    } else {
        lemma_push_char_render(v, s.first());
        lemma_append_chars_render(v.push_char(s.first()), s.drop_first());
        assert((v.render().push(s.first())) + s.drop_first() =~= v.render() + s);
    }
}

/// Raw text round-trips: parsing any character sequence one character at a
/// time into the empty tree and rendering yields exactly that sequence.
pub proof fn lemma_text_round_trip(s: Seq<char>)
    ensures
        append_chars(HtmlView::Empty, s).render() == s,
{
    lemma_append_chars_render(HtmlView::Empty, s);
    assert(Seq::<char>::empty() + s =~= s);
}

/// Inserting a node appends exactly that node's rendering to the tree's
/// rendering, as long as the attachment target is not a comment.
pub proof fn lemma_push_node_render(v: HtmlView, node: HtmlView)
    requires
        !v.node_target_is_comment(),
    ensures
        v.push_node(node).render() == v.render() + node.render(),
    decreases v,
{
    match v {
        HtmlView::Empty => {
            assert(Seq::<char>::empty() + node.render() =~= node.render());
        },
        HtmlView::Text(_) => {
            lemma_render_seq_two(v, node);
        },
        HtmlView::Document { .. } => {
            lemma_render_seq_two(v, node);
        },
        HtmlView::Comment { .. } => {
        },
        HtmlView::Tag { tag, full, child } => {
            if full is Opened {
                lemma_push_node_render(*child, node);
                let opening = "<"@ + tag.text() + ">"@;
                let pushed = HtmlView::Tag {
                    tag,
                    full,
                    child: Box::new(child.push_node(node)),
                };
                assert(v.push_node(node) == pushed);
                assert(pushed.render() == opening + child.push_node(node).render());
                assert(v.render() == opening + child.render());
                assert(opening + (child.render() + node.render()) =~= (opening
                    + child.render()) + node.render());
            } else {
                lemma_render_seq_two(v, node);
            }
        },
        HtmlView::Sequence(items) => {
            if items.len() > 0 && items.last().is_pushable(false) {
                lemma_push_node_render(items.last(), node);
                lemma_render_seq_update_last(items, items.last().push_node(node));
                assert(v.push_node(node).render() == render_seq(
                    items.update(items.len() - 1, items.last().push_node(node)),
                ));
                assert(v.render() == render_seq(items));
                assert(render_seq(items) == render_seq(items.drop_last())
                    + items.last().render());
                assert(render_seq(items.drop_last()) + (items.last().render() + node.render())
                    =~= (render_seq(items.drop_last()) + items.last().render())
                    + node.render());
            } else {
                lemma_render_seq_push(items, node);
                assert(v.push_node(node).render() == render_seq(items.push(node)));
                assert(v.render() == render_seq(items));
            }
        },
    }
}

/// Closing the innermost comment succeeds exactly when the active branch
/// ends in an open comment, and then appends exactly the comment terminator
/// to the rendering; otherwise it leaves the tree and its rendering alone.
pub proof fn lemma_close_comment_render(v: HtmlView)
    ensures
        v.close_comment().1 == v.in_comment(),
        v.close_comment().0.render() == v.render() + if v.in_comment() {
            "-->"@
        } else {
            Seq::<char>::empty()
        },
    decreases v,
{
    if !v.in_comment() {
        lemma_close_comment_unchanged(v);
        assert(v.render() + Seq::<char>::empty() =~= v.render());
    } else {
        match v {
            HtmlView::Comment { content, full } => {
                assert(v.close_comment().0.render() == "<!--"@ + content + "-->"@);
                assert(("<!--"@ + content + Seq::<char>::empty()) + "-->"@ =~= "<!--"@
                    + content + "-->"@);
            },
            HtmlView::Tag { tag, full, child } => {
                lemma_close_comment_render(*child);
                let opening = "<"@ + tag.text() + ">"@;
                let closed = HtmlView::Tag {
                    tag,
                    full,
                    child: Box::new(child.close_comment().0),
                };
                assert(v.close_comment().0 == closed);
                assert(closed.render() == opening + child.close_comment().0.render());
                assert(v.render() == opening + child.render());
                assert(opening + (child.render() + "-->"@) =~= (opening + child.render())
                    + "-->"@);
            },
            HtmlView::Sequence(items) => {
                lemma_close_comment_render(items.last());
                lemma_render_seq_update_last(items, items.last().close_comment().0);
                assert(v.close_comment().0.render() == render_seq(
                    items.update(items.len() - 1, items.last().close_comment().0),
                ));
                assert(v.render() == render_seq(items));
                assert(render_seq(items) == render_seq(items.drop_last())
                    + items.last().render());
                assert(render_seq(items.drop_last()) + (items.last().render() + "-->"@)
                    =~= (render_seq(items.drop_last()) + items.last().render()) + "-->"@);
            },
            _ => {},
        }
    }
}

/// Closing a comment mutates the tree only when the active branch ends in a
/// comment that is still open.
pub proof fn lemma_close_comment_unchanged(v: HtmlView)
    requires
        !v.in_comment(),
    ensures
        v.close_comment().0 == v,
        !v.close_comment().1,
    decreases v,
{
    match v {
        HtmlView::Tag { tag, full, child } => {
            if full is Opened {
                lemma_close_comment_unchanged(*child);
            }
        },
        HtmlView::Sequence(items) => {
            if items.len() > 0 {
                lemma_close_comment_unchanged(items.last());
                assert(items.update(items.len() - 1, items.last().close_comment().0)
                    =~= items);
            }
        },
        _ => {},
    }
}

/// The outcome of a closing tag is decided by the innermost open tag alone:
/// none open reports so, a matching name succeeds, and any other name
/// reports the name that is actually open.
pub proof fn lemma_close_tag_status(v: HtmlView, name: Seq<char>)
    ensures
        v.close_tag(name).1 == (match v.innermost_open() {
            None => ClosingStatusView::NoOpenTag,
            Some(n) => if n == name {
                ClosingStatusView::Success
            } else {
                ClosingStatusView::WrongName(n)
            },
        }),
    decreases v,
{
    match v {
        HtmlView::Tag { tag, full, child } => {
            if full is Opened {
                lemma_close_tag_status(*child, name);
            }
        },
        HtmlView::Sequence(items) => {
            if items.len() > 0 {
                lemma_close_tag_status(items.last(), name);
            }
        },
        _ => {},
    }
}

/// Successfully closing a tag appends exactly its closing syntax to the
/// rendering.
pub proof fn lemma_close_tag_render(v: HtmlView, name: Seq<char>)
    requires
        v.close_tag(name).1 is Success,
    ensures
        v.close_tag(name).0.render() == v.render() + "</"@ + name + ">"@,
    decreases v,
{
    match v {
        HtmlView::Tag { tag, full, child } => {
            let (child_closed, status) = child.close_tag(name);
            if status is NoOpenTag {
                assert(tag.name == name);
                assert(v.close_tag(name).0 == (HtmlView::Tag {
                    tag,
                    full: crate::tag::TagType::Closed,
                    child,
                }));
            } else {
                lemma_close_tag_render(*child, name);
                let opening = "<"@ + tag.text() + ">"@;
                let closed = HtmlView::Tag { tag, full, child: Box::new(child_closed) };
                assert(v.close_tag(name).0 == closed);
                assert(closed.render() == opening + child_closed.render());
                assert(v.render() == opening + child.render());
                assert(opening + (child.render() + "</"@ + name + ">"@) =~= ((opening
                    + child.render()) + "</"@) + name + ">"@);
            }
        },
        HtmlView::Sequence(items) => {
            lemma_close_tag_render(items.last(), name);
            lemma_render_seq_update_last(items, items.last().close_tag(name).0);
            assert(v.close_tag(name).0.render() == render_seq(
                items.update(items.len() - 1, items.last().close_tag(name).0),
            ));
            assert(v.render() == render_seq(items));
            assert(render_seq(items) == render_seq(items.drop_last())
                + items.last().render());
            assert(render_seq(items.drop_last()) + (items.last().render() + "</"@ + name
                + ">"@) =~= ((render_seq(items.drop_last()) + items.last().render())
                + "</"@) + name + ">"@);
        },
        _ => {},
    }
}

/// One structural event a driver feeds into the tree, as the tokenizer
/// classifies the input text left to right.
pub enum Event {
    /// One character of raw text or comment content.
    Character(char),
    /// An opening tag, self-closing when `inline` holds.
    OpenTag { tag: TagView, inline: bool },
    /// A closing tag.
    CloseTag { name: Seq<char> },
    /// The opening delimiter of a comment.
    OpenComment,
    /// The closing delimiter of a comment.
    CloseComment,
    /// A whole document declaration.
    Declaration { name: Seq<char>, attr: Option<Seq<char>> },
}

impl Event {
    /// The markup text the tokenizer consumed to produce this event.
    pub open spec fn text(self) -> Seq<char> {
        match self {
            Event::Character(ch) => seq![ch],
            Event::OpenTag { tag, inline } => if inline {
                "<"@ + tag.text() + " />"@
            } else {
                "<"@ + tag.text() + ">"@
            },
            Event::CloseTag { name } => "</"@ + name + ">"@,
            Event::OpenComment => "<!--"@,
            Event::CloseComment => "-->"@,
            Event::Declaration { name, attr } => HtmlView::Document { name, attr }.render(),
        }
    }

    /// The tree after this event is fed into `v` through the matching
    /// operation.
    pub open spec fn apply(self, v: HtmlView) -> HtmlView {
        match self {
            Event::Character(ch) => v.push_char(ch),
            Event::OpenTag { tag, inline } => v.push_node(
                HtmlView::Tag {
                    tag,
                    full: if inline {
                        TagType::SelfClosing
                    } else {
                        TagType::Opened
                    },
                    child: Box::new(HtmlView::Empty),
                },
            ),
            Event::CloseTag { name } => v.close_tag(name).0,
            Event::OpenComment => v.push_node(
                HtmlView::Comment { content: Seq::<char>::empty(), full: false },
            ),
            Event::CloseComment => v.close_comment().0,
            Event::Declaration { name, attr } => v.push_node(
                HtmlView::Document { name, attr },
            ),
        }
    }

    /// Whether this event is legal on `v`: a closing tag must match the
    /// innermost open tag, a comment terminator needs an open comment, and a
    /// node is never inserted while a comment is the attachment target.
    /// Well-formed markup, scanned left to right, only produces legal
    /// events.
    pub open spec fn ok_on(self, v: HtmlView) -> bool {
        match self {
            Event::Character(_) => true,
            Event::OpenTag { .. } => !v.node_target_is_comment(),
            Event::CloseTag { name } => v.close_tag(name).1 is Success,
            Event::OpenComment => !v.node_target_is_comment(),
            Event::CloseComment => v.in_comment(),
            Event::Declaration { .. } => !v.node_target_is_comment(),
        }
    }
}

/// The tree an event stream builds from a starting tree, fed in one event
/// at a time.
pub open spec fn apply_events(v: HtmlView, events: Seq<Event>) -> HtmlView
    decreases events.len(),
{
    if events.len() == 0 {
        v
    } else {
        apply_events(events.first().apply(v), events.drop_first())
    }
}

/// Whether every event of the stream is legal on the tree it meets.
pub open spec fn events_ok(v: HtmlView, events: Seq<Event>) -> bool
    decreases events.len(),
{
    events.len() == 0 || (events.first().ok_on(v) && events_ok(
        events.first().apply(v),
        events.drop_first(),
    ))
}

/// The markup text a stream of events was tokenized from: the concatenation
/// of each event's text, in order.
pub open spec fn events_text(events: Seq<Event>) -> Seq<char>
    decreases events.len(),
{
    if events.len() == 0 {
        Seq::<char>::empty()
    } else {
        events.first().text() + events_text(events.drop_first())
    }
}

/// Every legal event appends exactly the text it was tokenized from to the
/// rendering of the tree.
pub proof fn lemma_event_render(v: HtmlView, e: Event)
    requires
        e.ok_on(v),
    ensures
        e.apply(v).render() == v.render() + e.text(),
{
    match e {
        Event::Character(ch) => {
            lemma_push_char_render(v, ch);
            assert(v.render().push(ch) =~= v.render() + seq![ch]);
        },
        Event::OpenTag { tag, inline } => {
            let full = if inline {
                TagType::SelfClosing
            } else {
                TagType::Opened
            };
            let node = HtmlView::Tag { tag, full, child: Box::new(HtmlView::Empty) };
            lemma_push_node_render(v, node);
            if !inline {
                assert(HtmlView::Empty.render() == Seq::<char>::empty());
                assert(node.render() =~= "<"@ + tag.text() + ">"@);
            }
        },
        Event::CloseTag { name } => {
            lemma_close_tag_render(v, name);
            assert(v.render() + "</"@ + name + ">"@ =~= v.render() + ("</"@ + name + ">"@));
        },
        Event::OpenComment => {
            let node = HtmlView::Comment { content: Seq::<char>::empty(), full: false };
            lemma_push_node_render(v, node);
            assert(node.render() =~= "<!--"@);
        },
        Event::CloseComment => {
            lemma_close_comment_render(v);
        },
        Event::Declaration { name, attr } => {
            lemma_push_node_render(v, HtmlView::Document { name, attr });
        },
    }
}

/// A stream of legal events appends exactly the text it was tokenized from.
pub proof fn lemma_apply_events_render(v: HtmlView, events: Seq<Event>)
    requires
        events_ok(v, events),
    ensures
        apply_events(v, events).render() == v.render() + events_text(events),
    decreases events.len(),
{
    if events.len() == 0 {
        assert(v.render() + Seq::<char>::empty() =~= v.render());
    } else {
        let e = events.first();
        lemma_event_render(v, e);
        lemma_apply_events_render(e.apply(v), events.drop_first());
        assert((v.render() + e.text()) + events_text(events.drop_first()) =~= v.render()
            + (e.text() + events_text(events.drop_first())));
    }
}

/// Render-after-parse is the identity: feeding the empty tree the event
/// stream that a well-formed markup text tokenizes to, and rendering,
/// yields that text back, attributes and all.
pub proof fn lemma_render_after_parse(events: Seq<Event>)
    requires
        events_ok(HtmlView::Empty, events),
    ensures
        apply_events(HtmlView::Empty, events).render() == events_text(events),
{
    lemma_apply_events_render(HtmlView::Empty, events);
    assert(Seq::<char>::empty() + events_text(events) =~= events_text(events));
}

/// Wrapping a closed node and a new sibling into a fresh run preserves
/// well-formedness: the run has exactly two elements, neither a run nor
/// empty.
proof fn lemma_wf_promote(v: HtmlView, node: HtmlView)
    requires
        v.well_formed(),
        !(v is Sequence),
        !(v is Empty),
        node.well_formed(),
        !(node is Sequence),
        !(node is Empty),
    ensures
        HtmlView::Sequence(seq![v, node]).well_formed(),
{
    let s = seq![v, node];
    assert forall|i: int|
        0 <= i < s.len() implies (#[trigger] s[i]).well_formed() && !(s[i] is Sequence) && !(
    s[i] is Empty) by {
        if i == 0 {
            assert(s[0] == v);
        } else {
            assert(s[1] == node);
        }
    }
}

/// Appending a character preserves structural well-formedness: no run of
/// siblings ever shrinks below two elements or nests inside another run,
/// and no self-closing tag gains a child.
pub proof fn lemma_push_char_wf(v: HtmlView, ch: char)
    requires
        v.well_formed(),
    ensures
        v.push_char(ch).well_formed(),
    decreases v,
{
    match v {
        HtmlView::Comment { content, full } => {
            if full {
                lemma_wf_promote(v, HtmlView::Text(seq![ch]));
            }
        },
        HtmlView::Document { .. } => {
            lemma_wf_promote(v, HtmlView::Text(seq![ch]));
        },
        HtmlView::Tag { tag, full, child } => {
            if full is Opened {
                lemma_push_char_wf(*child, ch);
            } else {
                lemma_wf_promote(v, HtmlView::Text(seq![ch]));
            }
        },
        HtmlView::Sequence(items) => {
            if items.len() > 0 && items.last().is_pushable(true) {
                lemma_push_char_wf(items.last(), ch);
                let updated = items.update(items.len() - 1, items.last().push_char(ch));
                assert(items.last().well_formed());
                assert(!(items.last().push_char(ch) is Sequence) && !(items.last().push_char(
                    ch,
                ) is Empty));
                assert forall|i: int|
                    0 <= i < updated.len() implies (#[trigger] updated[i]).well_formed() && !(
                updated[i] is Sequence) && !(updated[i] is Empty) by {
                    if i < items.len() - 1 {
                        assert(updated[i] == items[i]);
                    }
                }
            } else {
                let pushed = items.push(HtmlView::Text(seq![ch]));
                assert forall|i: int|
                    0 <= i < pushed.len() implies (#[trigger] pushed[i]).well_formed() && !(
                pushed[i] is Sequence) && !(pushed[i] is Empty) by {
                    if i < items.len() {
                        assert(pushed[i] == items[i]);
                    }
                }
            }
        },
        _ => {},
    }
}

/// Inserting a node that is itself well-formed, not a run and not empty
/// preserves structural well-formedness.
pub proof fn lemma_push_node_wf(v: HtmlView, node: HtmlView)
    requires
        v.well_formed(),
        node.well_formed(),
        !(node is Sequence),
        !(node is Empty),
        !v.node_target_is_comment(),
    ensures
        v.push_node(node).well_formed(),
    decreases v,
{
    match v {
        HtmlView::Text(_) => {
            lemma_wf_promote(v, node);
        },
        HtmlView::Document { .. } => {
            lemma_wf_promote(v, node);
        },
        HtmlView::Tag { tag, full, child } => {
            if full is Opened {
                lemma_push_node_wf(*child, node);
            } else {
                lemma_wf_promote(v, node);
            }
        },
        HtmlView::Sequence(items) => {
            if items.len() > 0 && items.last().is_pushable(false) {
                lemma_push_node_wf(items.last(), node);
                let updated = items.update(items.len() - 1, items.last().push_node(node));
                assert(!(items.last().push_node(node) is Sequence) && !(items.last().push_node(
                    node,
                ) is Empty));
                assert forall|i: int|
                    0 <= i < updated.len() implies (#[trigger] updated[i]).well_formed() && !(
                updated[i] is Sequence) && !(updated[i] is Empty) by {
                    if i < items.len() - 1 {
                        assert(updated[i] == items[i]);
                    }
                }
            } else {
                let pushed = items.push(node);
                assert forall|i: int|
                    0 <= i < pushed.len() implies (#[trigger] pushed[i]).well_formed() && !(
                pushed[i] is Sequence) && !(pushed[i] is Empty) by {
                    if i < items.len() {
                        assert(pushed[i] == items[i]);
                    }
                }
            }
        },
        _ => {},
    }
}

/// Terminating the innermost comment preserves structural well-formedness.
pub proof fn lemma_close_comment_wf(v: HtmlView)
    requires
        v.well_formed(),
    ensures
        v.close_comment().0.well_formed(),
    decreases v,
{
    match v {
        HtmlView::Tag { tag, full, child } => {
            if full is Opened {
                lemma_close_comment_wf(*child);
            }
        },
        HtmlView::Sequence(items) => {
            if items.len() > 0 {
                lemma_close_comment_wf(items.last());
                let updated = items.update(items.len() - 1, items.last().close_comment().0);
                assert(!(items.last().close_comment().0 is Sequence) && !(
                items.last().close_comment().0 is Empty));
                assert forall|i: int|
                    0 <= i < updated.len() implies (#[trigger] updated[i]).well_formed() && !(
                updated[i] is Sequence) && !(updated[i] is Empty) by {
                    if i < items.len() - 1 {
                        assert(updated[i] == items[i]);
                    }
                }
            }
        },
        _ => {},
    }
}

/// Resolving a closing tag preserves structural well-formedness, whatever
/// its outcome.
pub proof fn lemma_close_tag_wf(v: HtmlView, name: Seq<char>)
    requires
        v.well_formed(),
    ensures
        v.close_tag(name).0.well_formed(),
    decreases v,
{
    match v {
        HtmlView::Tag { tag, full, child } => {
            if full is Opened {
                lemma_close_tag_wf(*child, name);
            }
        },
        HtmlView::Sequence(items) => {
            if items.len() > 0 {
                lemma_close_tag_wf(items.last(), name);
                let updated = items.update(items.len() - 1, items.last().close_tag(name).0);
                assert(!(items.last().close_tag(name).0 is Sequence) && !(
                items.last().close_tag(name).0 is Empty));
                assert forall|i: int|
                    0 <= i < updated.len() implies (#[trigger] updated[i]).well_formed() && !(
                updated[i] is Sequence) && !(updated[i] is Empty) by {
                    if i < items.len() - 1 {
                        assert(updated[i] == items[i]);
                    }
                }
            }
        },
        _ => {},
    }
}

} // verus!
